//! Lines of a file that grows, through rotation and restarts.
use vstd::prelude::*;
use vstd::utf8::*;

use crate::numbers;
use crate::numbers::parse_numeral;
use crate::relay::parser;
use crate::relay::sources::RawEvent;
use crate::text;
use crate::text::{chars_of, copy_text, decimal_text, join2, push_text, space_char, trim_start_chars};

verus! {

/// How long to wait at the end of the file, in milliseconds.
pub const POLL_INTERVAL_MS: u64 = 100;

/// Behind how many events a bookmark is saved.
pub const BOOKMARK_INTERVAL_EVENTS: u64 = 100;

// ---------------------------------------------------------------------------
// The source
// ---------------------------------------------------------------------------
/// The name of the source for a file.
pub open spec fn source_name(path: Seq<char>) -> Seq<char> {
    "log_tail:"@ + path
}

/// A file that grows.
#[derive(Debug, PartialEq, Eq)]
pub struct LogTailSource {
    /// The source's name.
    pub id: String,
    /// The file.
    pub path: String,
    /// Whether to begin with what is already in the file.
    pub from_beginning: bool,
}

impl LogTailSource {
    /// The source for a file.
    pub fn new(path: String, from_beginning: bool) -> (r: LogTailSource)
        ensures
            r.path == path,
            r.from_beginning == from_beginning,
            r.id@ == source_name(path@),
    {
        LogTailSource { id: join2("log_tail:", &path), path, from_beginning }
    }

    /// The source's name.
    pub fn id(&self) -> (r: &str)
        ensures
            r@ == self.id@,
    {
        self.id.as_str()
    }
}

// ---------------------------------------------------------------------------
// Bookmarks
// ---------------------------------------------------------------------------
/// How far a file was read.
#[derive(Debug, Clone, Copy, PartialEq, Eq, Structural)]
pub struct Bookmark {
    /// Which file it was.
    pub inode: u64,
    /// The number of bytes that were read.
    pub position: u64,
}

/// Where the bookmark of a file is saved.
pub fn bookmark_path_for(path: &str) -> (r: String)
    ensures
        r@ == path@ + ".purple-wolf-relay.bookmark"@,
{
    join2(path, ".purple-wolf-relay.bookmark")
}

/// Where a bookmark is written before it takes its place.
pub fn temporary_path_for(bookmark_path: &str) -> (r: String)
    ensures
        r@ == bookmark_path@ + ".tmp"@,
{
    join2(bookmark_path, ".tmp")
}

/// A bookmark as text.
pub open spec fn bookmark_text(b: Bookmark) -> Seq<char> {
    text::decimal(b.inode as nat) + " "@ + text::decimal(b.position as nat) + "\n"@
}

/// The 64-bit number that a numeral stands for.
pub open spec fn number(s: Seq<char>) -> Option<u64> {
    match numbers::numeral(s, u64::MAX as nat) {
        Ok(n) => Some(n as u64),
        Err(_) => None,
    }
}

/// The first word of a text, and what follows it.
pub open spec fn first_word(s: Seq<char>) -> (Seq<char>, Seq<char>) {
    let t = text::trim_start(s);
    (parser::word(t), t.skip(parser::word(t).len() as int))
}

/// The bookmark that a text holds: two numbers.
pub open spec fn bookmark_in(s: Seq<char>) -> Option<Bookmark> {
    let (first, rest) = first_word(s);
    let (second, more) = first_word(rest);
    match (number(first), number(second)) {
        (Some(inode), Some(position)) => Some(Bookmark { inode, position }),
        _ => None,
    }
}

/// The end of the word that starts at a place.
fn word_end(s: &[char], from: usize) -> (r: usize)
    requires
        from <= s@.len(),
    ensures
        from <= r <= s@.len(),
        s@.subrange(from as int, r as int) == parser::word(s@.skip(from as int)),
{
    let n: usize = s.len();
    let mut i: usize = from;
    let ghost whole = parser::word(s@.skip(from as int));
    assert(s@.subrange(from as int, from as int) + whole =~= whole);
    while i < n && !space_char(s[i])
        invariant
            from <= i <= n,
            n == s@.len(),
            whole == s@.subrange(from as int, i as int) + parser::word(s@.skip(i as int)),
        decreases n - i,
    {
        let ghost rest = s@.skip(i as int);
        assert(rest.skip(1) =~= s@.skip(i + 1));
        assert(rest[0] == s@[i as int]);
        assert(s@.subrange(from as int, i as int) + (seq![rest[0]] + parser::word(rest.skip(1)))
            =~= s@.subrange(from as int, i + 1) + parser::word(s@.skip(i + 1)));
        i = i + 1;
    }
    assert(i < n ==> s@.skip(i as int)[0] == s@[i as int]);
    assert(parser::word(s@.skip(i as int)) =~= Seq::<char>::empty());
    assert(whole =~= s@.subrange(from as int, i as int));
    i
}

/// Reads a bookmark.
pub fn parse_bookmark(s: &str) -> (r: Option<Bookmark>)
    ensures
        r == bookmark_in(s@),
{
    let all = chars_of(s);
    let a: usize = trim_start_chars(&all);
    let b: usize = word_end(&all, a);
    let first = slice(&all, a, b);
    let rest = slice(&all, b, all.len());
    let c: usize = trim_start_chars(&rest);
    let d: usize = word_end(&rest, c);
    let second = slice(&rest, c, d);
    proof {
        let t = text::trim_start(s@);
        assert(t =~= all@.skip(a as int));
        assert(first@ =~= parser::word(t));
        assert(rest@ =~= t.skip(parser::word(t).len() as int));
        let u = text::trim_start(rest@);
        assert(u =~= rest@.skip(c as int));
        assert(second@ =~= parser::word(u));
    }
    let inode = parse_numeral(&first, u64::MAX);
    let position = parse_numeral(&second, u64::MAX);
    match (inode, position) {
        (Ok(inode), Ok(position)) => Some(Bookmark { inode, position }),
        _ => None,
    }
}

fn slice(s: &Vec<char>, from: usize, to: usize) -> (r: Vec<char>)
    requires
        from <= to <= s@.len(),
    ensures
        r@ == s@.subrange(from as int, to as int),
{
    let mut out: Vec<char> = Vec::new();
    let mut i: usize = from;
    while i < to
        invariant
            from <= i <= to <= s@.len(),
            out@ == s@.subrange(from as int, i as int),
        decreases to - i,
    {
        out.push(s[i]);
        i = i + 1;
        assert(out@ =~= s@.subrange(from as int, i as int));
    }
    out
}

impl Bookmark {
    /// Writes the bookmark.
    pub fn to_text(&self) -> (r: String)
        ensures
            r@ == bookmark_text(*self),
    {
        let mut out = decimal_text(self.inode);
        push_text(&mut out, " ");
        push_text(&mut out, &decimal_text(self.position));
        push_text(&mut out, "\n");
        out
    }
}

/// Where reading begins in a file: where the bookmark says if it is of this file,
/// but not behind the end; else at the beginning or at the end, as asked for.
pub open spec fn first_position(
    saved: Option<Bookmark>,
    inode: u64,
    len: u64,
    from_beginning: bool,
) -> u64 {
    if saved is Some && saved->0.inode == inode {
        if saved->0.position <= len {
            saved->0.position
        } else {
            len
        }
    } else if from_beginning {
        0
    } else {
        len
    }
}

/// Where reading begins in a file.
pub fn start_position(saved: Option<Bookmark>, inode: u64, len: u64, from_beginning: bool) -> (r: u64)
    ensures
        r == first_position(saved, inode, len, from_beginning),
{
    if let Some(b) = saved {
        if b.inode == inode {
            return if b.position <= len {
                b.position
            } else {
                len
            };
        }
    }
    if from_beginning {
        0
    } else {
        len
    }
}

// ---------------------------------------------------------------------------
// Following the file
// ---------------------------------------------------------------------------
/// What stands at the path now.
#[derive(Debug, Clone, Copy, PartialEq, Eq, Structural)]
pub struct Probe {
    /// Which file it is.
    pub inode: u64,
    /// Its length.
    pub len: u64,
}

/// Whether the file was replaced, or cut off before what was read.
pub open spec fn is_rotated(inode: u64, position: u64, found: Probe) -> bool {
    found.inode != inode || found.len < position
}

/// Whether the file was replaced, or cut off before what was read.
pub fn detect_rotation(inode: u64, position: u64, found: Probe) -> (r: bool)
    ensures
        r == is_rotated(inode, position, found),
{
    found.inode != inode || found.len < position
}

/// What happened to a tail.
#[derive(Debug)]
pub enum TailEvent {
    /// The relay stops.
    Shutdown,
    /// Nothing is left to read for now.
    EndOfFile,
    /// The file may have changed.
    Woken,
    /// What stands at the path, if it can be opened.
    Probed(Option<Probe>),
    /// A line was read.
    Line(String),
    /// The event went out.
    Sent,
    /// Nobody takes events any more.
    Closed,
    /// Reading failed.
    Failed,
}

/// What a tail does next.
#[derive(Debug)]
pub enum TailAction {
    /// Read a line.
    Read,
    /// Save a bookmark, then read a line.
    SaveAndRead(Bookmark),
    /// Wait for a change.
    Wait,
    /// See what stands at the path.
    Probe,
    /// Read the file at the path from its beginning; save a bookmark.
    Reopen(Bookmark),
    /// Send an event.
    Send(RawEvent),
    /// Save a bookmark and stop.
    Stop(Bookmark),
    /// Stop with the error of the read.
    Fail,
}

/// How far a file was read.
#[derive(Debug)]
pub struct Tail {
    /// The source's name.
    pub source_id: String,
    /// Which file it is.
    pub inode: u64,
    /// The number of bytes that were read.
    pub position: u64,
    /// The number of events since the last bookmark.
    pub emitted_since_bookmark: u64,
}

impl Tail {
    /// The bookmark for what was read.
    pub open spec fn bookmark(&self) -> Bookmark {
        Bookmark { inode: self.inode, position: self.position }
    }

    /// The number of events since the last bookmark is below the interval.
    pub open spec fn wf(&self) -> bool {
        self.emitted_since_bookmark < BOOKMARK_INTERVAL_EVENTS
    }

    /// A position that counts every byte of the line still fits.
    pub open spec fn has_room(&self, event: TailEvent) -> bool {
        event matches TailEvent::Line(line) ==> self.position + encode_utf8(line@).len() <= u64::MAX
    }

    /// A tail that starts at a position.
    pub fn start(source_id: &str, inode: u64, position: u64) -> (r: Tail)
        ensures
            r.wf(),
            r.source_id@ == source_id@,
            r.bookmark() == (Bookmark { inode, position }),
            r.emitted_since_bookmark == 0,
    {
        Tail { source_id: copy_text(source_id), inode, position, emitted_since_bookmark: 0 }
    }

    fn here(&self) -> (r: Bookmark)
        ensures
            r == self.bookmark(),
    {
        Bookmark { inode: self.inode, position: self.position }
    }

    /// Takes note of what happened, and says what to do next.
    pub fn run_tail(&mut self, event: TailEvent) -> (r: TailAction)
        requires
            old(self).wf(),
            old(self).has_room(event),
        ensures
            final(self).wf(),
            final(self).source_id == old(self).source_id,
            match event {
                TailEvent::Shutdown | TailEvent::Closed => {
                    &&& r == TailAction::Stop(old(self).bookmark())
                    &&& *final(self) == *old(self)
                },
                TailEvent::EndOfFile => r is Wait && *final(self) == *old(self),
                TailEvent::Woken => r is Probe && *final(self) == *old(self),
                TailEvent::Failed => r is Fail && *final(self) == *old(self),
                TailEvent::Probed(found) => if found is Some && is_rotated(
                    old(self).inode,
                    old(self).position,
                    found->0,
                ) {
                    &&& r == TailAction::Reopen(final(self).bookmark())
                    &&& final(self).bookmark() == (Bookmark { inode: found->0.inode, position: 0 })
                    &&& final(self).emitted_since_bookmark == 0
                } else {
                    r is Read && *final(self) == *old(self)
                },
                TailEvent::Line(line) => {
                    &&& r matches TailAction::Send(e)
                    &&& e.is_of(old(self).source_id@, line@)
                    &&& final(self).inode == old(self).inode
                    &&& final(self).position == old(self).position + encode_utf8(line@).len()
                    &&& final(self).emitted_since_bookmark == old(self).emitted_since_bookmark
                },
                TailEvent::Sent => {
                    &&& final(self).bookmark() == old(self).bookmark()
                    &&& if old(self).emitted_since_bookmark + 1 == BOOKMARK_INTERVAL_EVENTS {
                        &&& r == TailAction::SaveAndRead(old(self).bookmark())
                        &&& final(self).emitted_since_bookmark == 0
                    } else {
                        &&& r is Read
                        &&& final(self).emitted_since_bookmark == old(self).emitted_since_bookmark
                            + 1
                    }
                },
            },
    {
        match event {
            TailEvent::Shutdown => TailAction::Stop(self.here()),
            TailEvent::Closed => TailAction::Stop(self.here()),
            TailEvent::EndOfFile => TailAction::Wait,
            TailEvent::Woken => TailAction::Probe,
            TailEvent::Failed => TailAction::Fail,
            TailEvent::Probed(None) => TailAction::Read,
            TailEvent::Probed(Some(found)) => {
                if detect_rotation(self.inode, self.position, found) {
                    self.inode = found.inode;
                    self.position = 0;
                    self.emitted_since_bookmark = 0;
                    TailAction::Reopen(self.here())
                } else {
                    TailAction::Read
                }
            },
            TailEvent::Line(line) => {
                let n: usize = line.as_str().as_bytes().len();
                self.position = self.position + n as u64;
                TailAction::Send(RawEvent::read_now(&self.source_id, &line))
            },
            TailEvent::Sent => {
                self.emitted_since_bookmark = self.emitted_since_bookmark + 1;
                if self.emitted_since_bookmark >= BOOKMARK_INTERVAL_EVENTS {
                    self.emitted_since_bookmark = 0;
                    TailAction::SaveAndRead(self.here())
                } else {
                    TailAction::Read
                }
            },
        }
    }
}

// ---------------------------------------------------------------------------
// Laws
// ---------------------------------------------------------------------------
spec fn are_digits(s: Seq<char>) -> bool {
    forall|i: int| 0 <= i < s.len() ==> '0' <= #[trigger] s[i] <= '9'
}

proof fn lemma_word_of_digits(d: Seq<char>, rest: Seq<char>)
    requires
        are_digits(d),
        rest.len() > 0,
        text::is_space(rest[0]),
    ensures
        parser::word(d + rest) == d,
    decreases d.len(),
{
    let s = d + rest;
    if d.len() == 0 {
        assert(s =~= rest);
    } else {
        let tail = d.skip(1);
        assert(s[0] == d[0]);
        assert(s.skip(1) =~= tail + rest);
        assert forall|i: int| 0 <= i < tail.len() implies '0' <= #[trigger] tail[i] <= '9' by {
            assert(tail[i] == d[i + 1]);
        }
        lemma_word_of_digits(tail, rest);
        assert(seq![d[0]] + tail =~= d);
    }
}

/// A bookmark that is written is read back as it was.
pub proof fn law_bookmark_is_read_back(b: Bookmark)
    ensures
        bookmark_in(bookmark_text(b)) == Some(b),
{
    reveal_strlit(" ");
    reveal_strlit("\n");
    let d1 = text::decimal(b.inode as nat);
    let d2 = text::decimal(b.position as nat);
    let s = bookmark_text(b);
    text::lemma_decimal_digits(b.inode as nat);
    text::lemma_decimal_digits(b.position as nat);
    numbers::law_decimal_is_read_back(b.inode as nat, u64::MAX as nat);
    numbers::law_decimal_is_read_back(b.position as nat, u64::MAX as nat);
    let r1 = " "@ + d2 + "\n"@;
    let r2 = "\n"@;
    assert(s =~= d1 + r1);
    assert(s[0] == d1[0]);
    assert(text::trim_start(s) == s);
    assert(r1[0] == ' ');
    lemma_word_of_digits(d1, r1);
    assert(s.skip(d1.len() as int) =~= r1);
    assert(r1.skip(1) =~= d2 + r2);
    assert((d2 + r2)[0] == d2[0]);
    assert(text::trim_start(d2 + r2) == d2 + r2);
    assert(text::trim_start(r1) == d2 + r2) by {
        reveal_with_fuel(text::trim_start, 2);
    }
    assert(r2[0] == '\n');
    lemma_word_of_digits(d2, r2);
}

/// A restart goes on where the last bookmark was saved: nothing is read twice, and
/// what was written in the meantime is read, whatever the start would be without
/// a bookmark.
pub proof fn law_restart_goes_on(b: Bookmark, len: u64, from_beginning: bool)
    requires
        b.position <= len,
    ensures
        first_position(bookmark_in(bookmark_text(b)), b.inode, len, from_beginning) == b.position,
{
    law_bookmark_is_read_back(b);
}

/// The bookmark of another file is ignored.
pub proof fn law_bookmark_of_another_file_is_ignored(
    b: Bookmark,
    inode: u64,
    len: u64,
    from_beginning: bool,
)
    requires
        b.inode != inode,
    ensures
        first_position(Some(b), inode, len, from_beginning) == first_position(
            None,
            inode,
            len,
            from_beginning,
        ),
{
}

/// Reading never begins behind the end of the file.
pub proof fn law_start_is_within_the_file(
    saved: Option<Bookmark>,
    inode: u64,
    len: u64,
    from_beginning: bool,
)
    ensures
        first_position(saved, inode, len, from_beginning) <= len,
{
}

/// A file was replaced or cut just when it is another one, or shorter than what was read.
pub proof fn law_rotation_is_noticed(inode: u64, position: u64, found: Probe)
    ensures
        !is_rotated(inode, position, found) <==> found.inode == inode && position <= found.len,
{
}

/// Reading starts at the bookmark, but not behind the end of the file; without one it
/// starts at the end, or at the beginning where that is asked for.
pub proof fn law_reading_starts_at_the_bookmark(
    b: Bookmark,
    inode: u64,
    len: u64,
    from_beginning: bool,
)
    ensures
        b.inode == inode && b.position > len ==> first_position(
            Some(b),
            inode,
            len,
            from_beginning,
        ) == len,
        b.inode == inode && b.position <= len ==> first_position(
            Some(b),
            inode,
            len,
            from_beginning,
        ) == b.position,
        first_position(None, inode, len, true) == 0,
        first_position(None, inode, len, false) == len,
{
}

} // verus!
