//! Finds the audit event in a log line of the proxy.
//!
//! The line is stripped of terminal colours; its first balanced JSON object is
//! read; and it counts as an audit event where it bears the marks of one. What
//! the proxy says of itself around the object is picked up where it is there.
use vstd::prelude::*;
use vstd::utf8::*;

use crate::audit;
use crate::bytes::strict_text;
use crate::relay::event;
use crate::relay::event::{AuditEvent, EventModel, MemberView};
use crate::text;
use crate::text::{
    chars_of, contains_char, copy_text, find_char, same_text, space_char, stands_at_chars,
    text_between,
};

verus! {

// ---------------------------------------------------------------------------
// Terminal colours
// ---------------------------------------------------------------------------
/// The character that starts an escape sequence.
pub const ESC: char = '\x1b';

/// An ASCII letter, which ends an escape sequence.
pub open spec fn is_letter(c: char) -> bool {
    ('a' <= c && c <= 'z') || ('A' <= c && c <= 'Z')
}

/// What follows the first letter, or nothing.
pub open spec fn behind_letter(s: Seq<char>) -> Seq<char>
    decreases s.len(),
{
    if s.len() == 0 {
        s
    } else if is_letter(s[0]) {
        s.skip(1)
    } else {
        behind_letter(s.skip(1))
    }
}

/// What follows an escape sequence whose first character is behind us.
pub open spec fn behind_escape(s: Seq<char>) -> Seq<char> {
    if s.len() > 0 && s[0] == '[' {
        behind_letter(s.skip(1))
    } else {
        behind_letter(s)
    }
}

pub proof fn lemma_behind_letter(s: Seq<char>)
    ensures
        behind_letter(s).len() <= s.len(),
        forall|c: char| behind_letter(s).contains(c) ==> s.contains(c),
    decreases s.len(),
{
    if s.len() > 0 {
        lemma_behind_letter(s.skip(1));
        assert forall|c: char| behind_letter(s).contains(c) implies s.contains(c) by {
            assert(s.skip(1).contains(c));
            let i = s.skip(1).index_of(c);
            assert(s[i + 1] == c);
        }
    }
}

/// The text without its escape sequences.
pub open spec fn stripped(s: Seq<char>) -> Seq<char>
    decreases s.len(),
{
    if s.len() == 0 {
        Seq::empty()
    } else if s[0] == ESC {
        proof {
            lemma_behind_letter(s.skip(1));
            if s.skip(1).len() > 0 {
                lemma_behind_letter(s.skip(1).skip(1));
            }
        }
        stripped(behind_escape(s.skip(1)))
    } else {
        seq![s[0]] + stripped(s.skip(1))
    }
}

/// Text that is borrowed where it need not be changed.
#[derive(Debug, PartialEq, Eq)]
pub enum Cow<'a> {
    /// The text as it was.
    Borrowed(&'a str),
    /// A changed text.
    Owned(String),
}

impl<'a> Cow<'a> {
    /// The text.
    pub open spec fn text(self) -> Seq<char> {
        match self {
            Cow::Borrowed(s) => s@,
            Cow::Owned(s) => s@,
        }
    }

    pub fn as_str(&self) -> (r: &str)
        ensures
            r@ == self.text(),
    {
        match self {
            Cow::Borrowed(s) => s,
            Cow::Owned(s) => s.as_str(),
        }
    }
}

proof fn lemma_stripped_plain(s: Seq<char>)
    requires
        !s.contains(ESC),
    ensures
        stripped(s) == s,
    decreases s.len(),
{
    if s.len() > 0 {
        assert(s[0] != ESC);
        assert(!s.skip(1).contains(ESC)) by {
            if s.skip(1).contains(ESC) {
                let i = s.skip(1).index_of(ESC);
                assert(s[i + 1] == ESC);
            }
        }
        lemma_stripped_plain(s.skip(1));
        assert(seq![s[0]] + s.skip(1) =~= s);
    } else {
        assert(stripped(s) =~= s);
    }
}

/// Removes escape sequences. A text without any is borrowed.
pub fn strip_ansi<'a>(s: &'a str) -> (r: Cow<'a>)
    ensures
        r.text() == stripped(s@),
        r is Borrowed <==> !s@.contains(ESC),
{
    if !contains_char(s, ESC) {
        proof {
            lemma_stripped_plain(s@);
        }
        return Cow::Borrowed(s);
    }
    let c = chars_of(s);
    let n: usize = c.len();
    let mut out = String::new();
    let mut i: usize = 0;
    assert(s@.skip(0) == s@);
    assert(out@ + stripped(s@.skip(0)) =~= stripped(s@));
    while i < n
        invariant
            i <= n == c@.len(),
            c@ == s@,
            out@ + stripped(s@.skip(i as int)) == stripped(s@),
        decreases n - i,
    {
        let ghost rest = s@.skip(i as int);
        let ghost before = out@;
        assert(rest[0] == s@[i as int]);
        assert(rest.skip(1) == s@.skip(i + 1));
        if c[i] == ESC {
            let mut k: usize = i + 1;
            if k < n && c[k] == '[' {
                assert(rest.skip(1)[0] == '[');
                assert(rest.skip(1).skip(1) == s@.skip(k + 1));
                k = k + 1;
            } else {
                assert(rest.skip(1).len() > 0 ==> rest.skip(1)[0] == s@[i + 1]);
            }
            let ghost target = behind_escape(rest.skip(1));
            assert(target == behind_letter(s@.skip(k as int)));
            let mut done = false;
            while k < n && !done
                invariant
                    i < k <= n == c@.len(),
                    c@ == s@,
                    done ==> target == s@.skip(k as int),
                    !done ==> target == behind_letter(s@.skip(k as int)),
                decreases n - k, (if done { 0int } else { 1int }),
            {
                let d = c[k];
                assert(s@.skip(k as int)[0] == d);
                assert(s@.skip(k as int).skip(1) == s@.skip(k + 1));
                if (d >= 'a' && d <= 'z') || (d >= 'A' && d <= 'Z') {
                    done = true;
                }
                k = k + 1;
            }
            assert(target == s@.skip(k as int));
            i = k;
        } else {
            out.push(c[i]);
            assert(out@ + stripped(s@.skip(i + 1)) =~= before + (seq![s@[i as int]] + stripped(
                s@.skip(i + 1),
            )));
            i = i + 1;
        }
    }
    assert(s@.skip(n as int).len() == 0);
    assert(out@ + stripped(s@.skip(n as int)) =~= out@);
    Cow::Owned(out)
}

/// Stripping adds no character that was not there.
proof fn lemma_stripped_chars(s: Seq<char>)
    ensures
        forall|c: char| stripped(s).contains(c) ==> s.contains(c),
    decreases s.len(),
{
    if s.len() > 0 {
        let t = s.skip(1);
        if s[0] == ESC {
            lemma_behind_letter(t);
            if t.len() > 0 {
                lemma_behind_letter(t.skip(1));
            }
            lemma_stripped_chars(behind_escape(t));
            assert forall|c: char| stripped(s).contains(c) implies s.contains(c) by {
                assert(behind_escape(t).contains(c));
                if t.len() > 0 && t[0] == '[' {
                    assert(t.skip(1).contains(c));
                    let i = t.skip(1).index_of(c);
                    assert(s[i + 2] == c);
                } else {
                    assert(t.contains(c));
                    let i = t.index_of(c);
                    assert(s[i + 1] == c);
                }
            }
        } else {
            lemma_stripped_chars(t);
            assert forall|c: char| stripped(s).contains(c) implies s.contains(c) by {
                let i = stripped(s).index_of(c);
                if i == 0 {
                    assert(s[0] == c);
                } else {
                    assert(stripped(t)[i - 1] == c);
                    assert(t.contains(c));
                    let j = t.index_of(c);
                    assert(s[j + 1] == c);
                }
            }
        }
    }
}

/// A stripped text holds no escape sequence any more, so that stripping it
/// again changes nothing.
pub proof fn law_stripping_is_complete(s: Seq<char>)
    ensures
        !stripped(s).contains(ESC),
        stripped(stripped(s)) == stripped(s),
    decreases s.len(),
{
    lemma_no_escape_left(s);
    lemma_stripped_plain(stripped(s));
}

proof fn lemma_no_escape_left(s: Seq<char>)
    ensures
        !stripped(s).contains(ESC),
    decreases s.len(),
{
    if s.len() > 0 {
        let t = s.skip(1);
        if s[0] == ESC {
            lemma_behind_letter(t);
            if t.len() > 0 {
                lemma_behind_letter(t.skip(1));
            }
            lemma_no_escape_left(behind_escape(t));
        } else {
            lemma_no_escape_left(t);
            if stripped(s).contains(ESC) {
                let i = stripped(s).index_of(ESC);
                assert(i > 0);
                assert(stripped(t)[i - 1] == ESC);
            }
        }
    }
}

// ---------------------------------------------------------------------------
// The JSON object
// ---------------------------------------------------------------------------
/// Where the object ends whose braces are `depth` deep open before `i`. Braces
/// inside strings do not count.
pub open spec fn object_end(
    s: Seq<char>,
    i: int,
    depth: int,
    in_string: bool,
    escape: bool,
) -> Option<int>
    decreases s.len() - i,
{
    if i < 0 || i >= s.len() {
        None
    } else if in_string {
        if escape {
            object_end(s, i + 1, depth, true, false)
        } else if s[i] == '\\' {
            object_end(s, i + 1, depth, true, true)
        } else {
            object_end(s, i + 1, depth, s[i] != '"', false)
        }
    } else if s[i] == '"' {
        object_end(s, i + 1, depth, true, false)
    } else if s[i] == '{' {
        object_end(s, i + 1, depth + 1, false, false)
    } else if s[i] == '}' {
        if depth == 1 {
            Some(i)
        } else {
            object_end(s, i + 1, depth - 1, false, false)
        }
    } else {
        object_end(s, i + 1, depth, false, false)
    }
}

/// Where the first balanced object starts and ends.
pub open spec fn first_object(s: Seq<char>) -> Option<(int, int)> {
    match text::first_index(s, '{') {
        None => None,
        Some(start) => match object_end(s, start, 0, false, false) {
            Some(end) => Some((start, end)),
            None => None,
        },
    }
}

/// Finds the first opening brace and the closing one that matches it. The
/// bounds are places of characters.
pub fn find_json_object(s: &[char]) -> (r: Option<(usize, usize)>)
    ensures
        match r {
            Some((start, end)) => first_object(s@) == Some((start as int, end as int)) && start
                <= end < s@.len(),
            None => first_object(s@) is None,
        },
{
    let start = match find_char(s, '{') {
        Some(i) => i,
        None => {
            return None;
        },
    };
    proof {
        text::lemma_first_index(s@, '{');
    }
    let n: usize = s.len();
    let ghost target = object_end(s@, start as int, 0, false, false);
    let mut depth: usize = 0;
    let mut in_string = false;
    let mut escape = false;
    let mut i: usize = start;
    while i < n
        invariant
            start <= i <= n == s@.len(),
            first_object(s@) == (match target {
                Some(end) => Some((start as int, end)),
                None => None,
            }),
            depth <= i - start,
            i == start ==> depth == 0 && !in_string && s@[start as int] == '{',
            i > start ==> depth >= 1,
            escape ==> in_string,
            target == object_end(s@, i as int, depth as int, in_string, escape),
        decreases n - i,
    {
        let c = s[i];
        if in_string {
            if escape {
                escape = false;
            } else if c == '\\' {
                escape = true;
            } else if c == '"' {
                in_string = false;
            }
        } else if c == '"' {
            in_string = true;
        } else if c == '{' {
            depth = depth + 1;
        } else if c == '}' {
            if depth == 1 {
                return Some((start, i));
            }
            depth = depth - 1;
        }
        i = i + 1;
    }
    None
}

// ---------------------------------------------------------------------------
// What the proxy says of itself
// ---------------------------------------------------------------------------
/// The first place at or behind `from` where `key` stands.
pub open spec fn occurrence(s: Seq<char>, key: Seq<char>, from: int) -> Option<int>
    decreases s.len() + 1 - from,
{
    if from < 0 || from + key.len() > s.len() {
        None
    } else if text::stands_at(s, key, from) {
        Some(from)
    } else {
        occurrence(s, key, from + 1)
    }
}

pub fn find_text(s: &[char], key: &[char], from: usize) -> (r: Option<usize>)
    ensures
        match r {
            Some(i) => occurrence(s@, key@, from as int) == Some(i as int) && i + key@.len()
                <= s@.len(),
            None => occurrence(s@, key@, from as int) is None,
        },
{
    let n: usize = s.len();
    let k: usize = key.len();
    if k > n {
        return None;
    }
    let mut i: usize = from;
    while i <= n - k
        invariant
            k <= n,
            n == s@.len(),
            k == key@.len(),
            occurrence(s@, key@, from as int) == occurrence(s@, key@, i as int),
        decreases n + 1 - i,
    {
        if stands_at_chars(s, key, i) {
            return Some(i);
        }
        if i == n - k {
            assert(occurrence(s@, key@, i + 1) is None);
            return None;
        }
        i = i + 1;
    }
    None
}

/// The text up to the first white space.
pub open spec fn word(s: Seq<char>) -> Seq<char>
    decreases s.len(),
{
    if s.len() == 0 || text::is_space(s[0]) {
        Seq::empty()
    } else {
        seq![s[0]] + word(s.skip(1))
    }
}

/// A quotation mark.
pub open spec fn is_quote(c: char) -> bool {
    c == '"' || c == '\''
}

/// The text without the quotation marks at its start.
pub open spec fn unquoted_start(s: Seq<char>) -> Seq<char>
    decreases s.len(),
{
    if s.len() > 0 && is_quote(s[0]) {
        unquoted_start(s.skip(1))
    } else {
        s
    }
}

/// The text without the quotation marks at its end.
pub open spec fn unquoted_end(s: Seq<char>) -> Seq<char>
    decreases s.len(),
{
    if s.len() > 0 && is_quote(s.last()) {
        unquoted_end(s.drop_last())
    } else {
        s
    }
}

/// The value behind the first `key`: the next word, without quotation marks.
pub open spec fn value_behind(s: Seq<char>, key: Seq<char>) -> Option<Seq<char>> {
    match occurrence(s, key, 0) {
        None => None,
        Some(i) => {
            let v = unquoted_end(unquoted_start(word(s.skip(i + key.len()))));
            if v.len() == 0 {
                None
            } else {
                Some(v)
            }
        },
    }
}

fn quote_char(c: char) -> (r: bool)
    ensures
        r == is_quote(c),
{
    c == '"' || c == '\''
}

/// The value behind the first `key`.
pub fn find_value(s: &[char], key: &str) -> (r: Option<String>)
    ensures
        audit::opt_view(r) == value_behind(s@, key@),
{
    let k = chars_of(key);
    let at = match find_text(s, &k, 0) {
        Some(i) => i,
        None => {
            return None;
        },
    };
    let n: usize = s.len();
    let start: usize = at + k.len();
    let ghost rest = s@.skip(start as int);
    let mut end: usize = start;
    assert(Seq::<char>::empty() + word(rest) =~= word(rest));
    assert(s@.subrange(start as int, start as int) =~= Seq::<char>::empty());
    while end < n && !space_char(s[end])
        invariant
            start <= end <= n == s@.len(),
            rest == s@.skip(start as int),
            s@.subrange(start as int, end as int) + word(s@.skip(end as int)) == word(rest),
        decreases n - end,
    {
        let ghost tail = s@.skip(end as int);
        assert(tail[0] == s@[end as int]);
        assert(tail.skip(1) == s@.skip(end + 1));
        assert(s@.subrange(start as int, end + 1) =~= s@.subrange(start as int, end as int).push(
            s@[end as int],
        ));
        assert(s@.subrange(start as int, end + 1) + word(s@.skip(end + 1)) =~= s@.subrange(
            start as int,
            end as int,
        ) + (seq![s@[end as int]] + word(s@.skip(end + 1))));
        end = end + 1;
    }
    assert(word(s@.skip(end as int)) =~= Seq::<char>::empty()) by {
        if end < n {
            assert(s@.skip(end as int)[0] == s@[end as int]);
        }
    }
    assert(s@.subrange(start as int, end as int) =~= word(rest));
    let mut from: usize = start;
    let ghost w = word(rest);
    while from < end && quote_char(s[from])
        invariant
            start <= from <= end <= s@.len(),
            unquoted_start(w) == unquoted_start(s@.subrange(from as int, end as int)),
        decreases end - from,
    {
        assert(s@.subrange(from as int, end as int).skip(1) == s@.subrange(from + 1, end as int));
        from = from + 1;
    }
    assert(unquoted_start(w) == s@.subrange(from as int, end as int)) by {
        if from < end {
            assert(s@.subrange(from as int, end as int)[0] == s@[from as int]);
        }
    }
    let mut to: usize = end;
    let ghost u = unquoted_start(w);
    while to > from && quote_char(s[to - 1])
        invariant
            from <= to <= s@.len(),
            unquoted_end(u) == unquoted_end(s@.subrange(from as int, to as int)),
        decreases to,
    {
        assert(s@.subrange(from as int, to as int).drop_last() == s@.subrange(from as int, to - 1));
        to = to - 1;
    }
    if from == to {
        None
    } else {
        Some(text_between(s, from, to))
    }
}

/// A name without its provider: what stands before the first `@`.
pub open spec fn bare_name(s: Seq<char>) -> Seq<char> {
    match text::first_index(s, '@') {
        Some(i) => s.take(i),
        None => s,
    }
}

/// A name without its provider, such as `waf` for `waf@file`.
pub fn strip_traefik_suffix(v: String) -> (r: String)
    ensures
        r@ == bare_name(v@),
{
    let c = chars_of(&v);
    match find_char(&c, '@') {
        Some(i) => {
            proof {
                text::lemma_first_index(v@, '@');
            }
            let r = text_between(&c, 0, i);
            assert(r@ == v@.take(i as int));
            r
        },
        None => v,
    }
}

/// A name, if any, without its provider.
pub open spec fn opt_bare_name(o: Option<Seq<char>>) -> Option<Seq<char>> {
    match o {
        Some(s) => Some(bare_name(s)),
        None => None,
    }
}

fn opt_strip(o: Option<String>) -> (r: Option<String>)
    ensures
        audit::opt_view(r) == opt_bare_name(audit::opt_view(o)),
{
    match o {
        Some(v) => Some(strip_traefik_suffix(v)),
        None => None,
    }
}

// ---------------------------------------------------------------------------
// The line
// ---------------------------------------------------------------------------
/// Why a line gives no event.
#[derive(Debug, PartialEq, Eq)]
pub enum ParseError {
    /// The line holds no audit event, as most lines of the proxy.
    NotPurpleWolf,
    /// The line holds an object that looks like an audit event and is broken.
    Malformed(String),
}

impl ParseError {
    /// The error in words.
    pub fn message(&self) -> (r: String)
        ensures
            r@ == (match *self {
                ParseError::NotPurpleWolf =>
                    "line does not appear to be a purple-wolf audit log entry"@,
                ParseError::Malformed(why) => "malformed purple-wolf audit JSON: "@ + why@,
            }),
    {
        match self {
            ParseError::NotPurpleWolf => copy_text(
                "line does not appear to be a purple-wolf audit log entry",
            ),
            ParseError::Malformed(why) => text::join2("malformed purple-wolf audit JSON: ", why),
        }
    }
}

/// An audit event, and what the proxy said around it.
#[derive(Debug)]
pub struct ParsedAudit {
    /// The event.
    pub event: AuditEvent,
    /// The middleware, without its provider.
    pub middleware: Option<String>,
    /// The router, without its provider.
    pub router: Option<String>,
    /// The entry point.
    pub entry_point: Option<String>,
}

/// What a line gives.
pub struct ParsedModel {
    pub event: EventModel,
    pub middleware: Option<Seq<char>>,
    pub router: Option<Seq<char>>,
    pub entry_point: Option<Seq<char>>,
}

impl View for ParsedAudit {
    type V = ParsedModel;

    open spec fn view(&self) -> ParsedModel {
        ParsedModel {
            event: self.event@,
            middleware: audit::opt_view(self.middleware),
            router: audit::opt_view(self.router),
            entry_point: audit::opt_view(self.entry_point),
        }
    }
}

/// The marks of an audit event: a list of rules that would block, and an action
/// that is known.
pub open spec fn is_audit_event(members: Seq<(Seq<char>, MemberView)>) -> bool {
    let action = event::text_member(members, "action"@);
    &&& event::member(members, "would_block_rules"@) is Some
    &&& action == Some("block"@) || action == Some("allow"@)
}

/// The part of a stripped line that is its first object.
pub open spec fn object_text(line: Seq<char>) -> Option<Seq<char>> {
    match first_object(line) {
        Some((start, end)) => Some(line.subrange(start, end + 1)),
        None => None,
    }
}

/// What the proxy says of itself under a key: behind the object, where its own
/// fields stand, or else before it. The object itself is never searched: the
/// text in it comes from the client.
pub open spec fn said_around(before: Seq<char>, behind: Seq<char>, key: Seq<char>) -> Option<
    Seq<char>,
> {
    match value_behind(behind, key) {
        Some(v) => Some(v),
        None => value_behind(before, key),
    }
}

/// What a stripped line gives, from the text around its object and the object
/// as it was read.
pub open spec fn audit_in(
    before: Seq<char>,
    behind: Seq<char>,
    object: Option<(Seq<char>, Seq<(Seq<char>, MemberView)>)>,
) -> Option<ParsedModel> {
    match object {
        Some((json, members)) => if is_audit_event(members) {
            Some(
                ParsedModel {
                    event: EventModel { json, members },
                    middleware: opt_bare_name(said_around(before, behind, "middlewareName="@)),
                    router: opt_bare_name(said_around(before, behind, "routerName="@)),
                    entry_point: said_around(before, behind, "entryPointName="@),
                },
            )
        } else {
            None
        },
        None => None,
    }
}

/// What a stripped line gives.
pub open spec fn audit_of(line: Seq<char>) -> Option<ParsedModel> {
    match first_object(line) {
        Some((start, end)) => audit_in(
            line.take(start),
            line.skip(end + 1),
            event::json_object(line.subrange(start, end + 1)),
        ),
        None => None,
    }
}

/// What a line gives.
pub open spec fn parsed(line: Seq<u8>) -> Option<ParsedModel> {
    if valid_utf8(line) {
        audit_of(stripped(decode_utf8(line)))
    } else {
        None
    }
}

/// The value of a key behind the object, or else before it.
fn find_around(before: &[char], behind: &[char], key: &str) -> (r: Option<String>)
    ensures
        audit::opt_view(r) == said_around(before@, behind@, key@),
{
    match find_value(behind, key) {
        Some(v) => Some(v),
        None => find_value(before, key),
    }
}

/// Takes the text around an object and the object as it was read, and gives the
/// audit event with what the proxy said around it.
pub fn accept(before: &str, behind: &str, found: Option<AuditEvent>) -> (r: Result<
    ParsedAudit,
    ParseError,
>)
    ensures
        match r {
            Ok(p) => found is Some && audit_in(
                before@,
                behind@,
                Some((found->0@.json, found->0@.members)),
            ) == Some(p@),
            Err(e) => e is NotPurpleWolf && (found is None || audit_in(
                before@,
                behind@,
                Some((found->0@.json, found->0@.members)),
            ) is None),
        },
{
    let event = match found {
        Some(e) => e,
        None => {
            return Err(ParseError::NotPurpleWolf);
        },
    };
    let marked = event.get("would_block_rules").is_some();
    let action_known = match event.get_text("action") {
        Some(a) => same_text(a, "block") || same_text(a, "allow"),
        None => false,
    };
    if !(marked && action_known) {
        return Err(ParseError::NotPurpleWolf);
    }
    let ahead = chars_of(before);
    let rest = chars_of(behind);
    let middleware = opt_strip(find_around(&ahead, &rest, "middlewareName="));
    let router = opt_strip(find_around(&ahead, &rest, "routerName="));
    let entry_point = find_around(&ahead, &rest, "entryPointName=");
    Ok(ParsedAudit { event, middleware, router, entry_point })
}

/// Reads one log line of the proxy.
pub fn parse_line(line: &[u8]) -> (r: Result<ParsedAudit, ParseError>)
    ensures
        match r {
            Ok(p) => parsed(line@) == Some(p@),
            Err(e) => e is NotPurpleWolf && parsed(line@) is None,
        },
{
    let whole = match strict_text(line) {
        Some(t) => t,
        None => {
            return Err(ParseError::NotPurpleWolf);
        },
    };
    if !contains_char(&whole, '{') {
        proof {
            lemma_stripped_chars(whole@);
            text::lemma_first_index(stripped(whole@), '{');
            if first_object(stripped(whole@)) is Some {
                let i = text::first_index(stripped(whole@), '{')->0;
                assert(stripped(whole@)[i] == '{');
                assert(stripped(whole@).contains('{'));
            }
        }
        return Err(ParseError::NotPurpleWolf);
    }
    let plain = strip_ansi(&whole);
    let c = chars_of(plain.as_str());
    let n: usize = c.len();
    match find_json_object(&c) {
        Some((start, end)) => {
            assert(end < n);
            let before = text_between(&c, 0, start);
            let object = text_between(&c, start, end + 1);
            let behind = text_between(&c, end + 1, n);
            proof {
                assert(before@ == c@.take(start as int));
                assert(behind@ == c@.skip(end + 1));
            }
            accept(&before, &behind, AuditEvent::parse(&object))
        },
        None => Err(ParseError::NotPurpleWolf),
    }
}

/// What stands before the first escape stays as it is, and what follows is stripped as if
/// it stood alone.
pub proof fn law_plain_front_stays(a: Seq<char>, rest: Seq<char>)
    requires
        !a.contains('\x1b'),
    ensures
        stripped(a + rest) == a + stripped(rest),
    decreases a.len(),
{
    if a.len() == 0 {
        assert(a + rest =~= rest);
        assert(a + stripped(rest) =~= stripped(rest));
    } else {
        assert(a.contains(a[0]));
        assert(!a.skip(1).contains('\x1b')) by {
            if a.skip(1).contains('\x1b') {
                let i = a.skip(1).index_of('\x1b');
                assert(a[i + 1] == '\x1b');
            }
        }
        law_plain_front_stays(a.skip(1), rest);
        assert((a + rest).skip(1) =~= a.skip(1) + rest);
        assert((a + rest)[0] == a[0]);
        assert(seq![a[0]] + (a.skip(1) + stripped(rest)) =~= a + stripped(rest));
    }
}

proof fn lemma_behind_first_letter(a: Seq<char>, c: char, rest: Seq<char>)
    requires
        forall|i: int| 0 <= i < a.len() ==> !is_letter(#[trigger] a[i]),
        is_letter(c),
    ensures
        behind_letter(a + seq![c] + rest) == rest,
    decreases a.len(),
{
    let s = a + seq![c] + rest;
    if a.len() == 0 {
        assert(s.skip(1) =~= rest);
    } else {
        assert(!is_letter(a[0]));
        assert(s.skip(1) =~= a.skip(1) + seq![c] + rest);
        assert forall|i: int| 0 <= i < a.skip(1).len() implies !is_letter(
            #[trigger] a.skip(1)[i],
        ) by {
            assert(a.skip(1)[i] == a[i + 1]);
        }
        lemma_behind_first_letter(a.skip(1), c, rest);
    }
}

/// An escape sequence, up to and with the letter that ends it, is taken out wherever it
/// stands.
pub proof fn law_escape_sequence_is_taken_out(
    front: Seq<char>,
    a: Seq<char>,
    c: char,
    rest: Seq<char>,
)
    requires
        !front.contains('\x1b'),
        forall|i: int|
            0 <= i < a.len() ==> !('a' <= #[trigger] a[i] && a[i] <= 'z') && !('A' <= a[i] && a[i]
                <= 'Z'),
        ('a' <= c && c <= 'z') || ('A' <= c && c <= 'Z'),
    ensures
        stripped(front + (seq!['\x1b'] + a + seq![c] + rest)) == front + stripped(rest),
{
    let s = seq!['\x1b'] + a + seq![c] + rest;
    law_plain_front_stays(front, s);
    let t = a + seq![c] + rest;
    assert(s.skip(1) =~= t);
    assert(s[0] == '\x1b');
    if a.len() > 0 {
        assert(t[0] == a[0]);
    }
    if t[0] == '[' {
        assert(a.len() > 0);
        assert(t.skip(1) =~= a.skip(1) + seq![c] + rest);
        assert forall|i: int| 0 <= i < a.skip(1).len() implies !is_letter(
            #[trigger] a.skip(1)[i],
        ) by {
            assert(a.skip(1)[i] == a[i + 1]);
        }
        lemma_behind_first_letter(a.skip(1), c, rest);
    } else {
        lemma_behind_first_letter(a, c, rest);
    }
    assert(behind_escape(t) == rest);
}

/// A key is found where it first stands.
pub proof fn law_first_occurrence_counts(s: Seq<char>, key: Seq<char>, from: int, at: int)
    requires
        0 <= from <= at,
        text::stands_at(s, key, at),
        forall|k: int| from <= k < at ==> !#[trigger] text::stands_at(s, key, k),
    ensures
        occurrence(s, key, from) == Some(at),
    decreases at - from,
{
    if from < at {
        assert(!text::stands_at(s, key, from));
        law_first_occurrence_counts(s, key, from + 1, at);
    }
}

/// A key that stands nowhere is not found.
pub proof fn law_absent_key_is_not_found(s: Seq<char>, key: Seq<char>, from: int)
    requires
        forall|k: int| from <= k ==> !#[trigger] text::stands_at(s, key, k),
    ensures
        occurrence(s, key, from) is None,
    decreases s.len() + 1 - from,
{
    if 0 <= from && from + key.len() <= s.len() {
        assert(!text::stands_at(s, key, from));
        law_absent_key_is_not_found(s, key, from + 1);
    }
}

/// A word goes up to the first white space.
pub proof fn law_word_ends_at_white_space(a: Seq<char>, rest: Seq<char>)
    requires
        forall|i: int| 0 <= i < a.len() ==> !text::is_space(#[trigger] a[i]),
        rest.len() > 0 ==> text::is_space(rest[0]),
    ensures
        word(a + rest) == a,
    decreases a.len(),
{
    let s = a + rest;
    if a.len() == 0 {
        assert(s =~= rest);
    } else {
        assert(!text::is_space(a[0]));
        assert(s[0] == a[0]);
        assert(s.skip(1) =~= a.skip(1) + rest);
        assert forall|i: int| 0 <= i < a.skip(1).len() implies !text::is_space(
            #[trigger] a.skip(1)[i],
        ) by {
            assert(a.skip(1)[i] == a[i + 1]);
        }
        law_word_ends_at_white_space(a.skip(1), rest);
        assert(seq![a[0]] + a.skip(1) =~= a);
    }
}

proof fn lemma_start_unquoted(q: Seq<char>, rest: Seq<char>)
    requires
        forall|i: int| 0 <= i < q.len() ==> is_quote(#[trigger] q[i]),
        rest.len() > 0 ==> !is_quote(rest[0]),
    ensures
        unquoted_start(q + rest) == rest,
    decreases q.len(),
{
    let s = q + rest;
    if q.len() == 0 {
        assert(s =~= rest);
    } else {
        assert(is_quote(q[0]));
        assert(s.skip(1) =~= q.skip(1) + rest);
        assert forall|i: int| 0 <= i < q.skip(1).len() implies is_quote(
            #[trigger] q.skip(1)[i],
        ) by {
            assert(q.skip(1)[i] == q[i + 1]);
        }
        lemma_start_unquoted(q.skip(1), rest);
    }
}

proof fn lemma_end_unquoted(m: Seq<char>, q: Seq<char>)
    requires
        forall|i: int| 0 <= i < q.len() ==> is_quote(#[trigger] q[i]),
        m.len() > 0 ==> !is_quote(m.last()),
    ensures
        unquoted_end(m + q) == m,
    decreases q.len(),
{
    let s = m + q;
    if q.len() == 0 {
        assert(s =~= m);
    } else {
        assert(is_quote(q[q.len() - 1]));
        assert(s.drop_last() =~= m + q.drop_last());
        assert forall|i: int| 0 <= i < q.drop_last().len() implies is_quote(
            #[trigger] q.drop_last()[i],
        ) by {
            assert(q.drop_last()[i] == q[i]);
        }
        lemma_end_unquoted(m, q.drop_last());
    }
}

/// The value behind a key is the word that follows it, without the quotes of either sort
/// around it, wherever the key first stands.
pub proof fn law_value_follows_its_key(
    front: Seq<char>,
    key: Seq<char>,
    open: Seq<char>,
    value: Seq<char>,
    close: Seq<char>,
    rest: Seq<char>,
)
    requires
        forall|k: int|
            0 <= k < front.len() ==> !#[trigger] text::stands_at(
                front + key + (open + value + close + rest),
                key,
                k,
            ),
        forall|i: int| 0 <= i < open.len() ==> #[trigger] open[i] == '"' || open[i] == '\'',
        forall|i: int| 0 <= i < close.len() ==> #[trigger] close[i] == '"' || close[i] == '\'',
        value.len() > 0,
        forall|i: int| 0 <= i < value.len() ==> !text::is_space(#[trigger] value[i]),
        value[0] != '"' && value[0] != '\'' && value.last() != '"' && value.last() != '\'',
        rest.len() > 0 ==> text::is_space(rest[0]),
    ensures
        value_behind(front + key + (open + value + close + rest), key) == Some(value),
{
    let w = open + value + close;
    let s = front + key + (open + value + close + rest);
    let n = front.len() as int;
    assert(s.subrange(n, n + key.len()) =~= key);
    law_first_occurrence_counts(s, key, 0, n);
    assert(s.skip(n + key.len()) =~= w + rest);
    assert forall|i: int| 0 <= i < w.len() implies !text::is_space(#[trigger] w[i]) by {
        if i < open.len() {
            assert(w[i] == open[i]);
        } else if i < open.len() + value.len() {
            assert(w[i] == value[i - open.len()]);
        } else {
            assert(w[i] == close[i - open.len() - value.len()]);
        }
    }
    law_word_ends_at_white_space(w, rest);
    assert(w =~= open + (value + close));
    assert((value + close)[0] == value[0]);
    lemma_start_unquoted(open, value + close);
    lemma_end_unquoted(value, close);
}

/// What stands behind the object counts before what stands in front of it, and a name is
/// given without its provider.
pub proof fn law_names_are_read_around_the_object(
    front: Seq<char>,
    back: Seq<char>,
    key: Seq<char>,
)
    ensures
        value_behind(back, key) is Some ==> said_around(front, back, key) == value_behind(
            back,
            key,
        ),
        value_behind(back, key) is None ==> said_around(front, back, key) == value_behind(
            front,
            key,
        ),
{
}

/// The part of a name from the first `@` on is dropped.
pub proof fn law_provider_is_dropped(name: Seq<char>, provider: Seq<char>)
    requires
        !name.contains('@'),
    ensures
        bare_name(name + seq!['@'] + provider) == name,
        bare_name(name) == name,
{
    let s = name + seq!['@'] + provider;
    text::lemma_first_index(s, '@');
    text::lemma_first_index(name, '@');
    assert(s[name.len() as int] == '@');
    let i = text::first_index(s, '@')->0;
    if i < name.len() {
        assert(s[i] == name[i]);
        assert(name.contains(name[i]));
    }
    assert(s.take(name.len() as int) =~= name);
    if text::first_index(name, '@') is Some {
        assert(name.contains(name[text::first_index(name, '@')->0]));
    }
}

/// A line tells of the event, the middleware, the router and the entry point by their own
/// keys, and the names of the first two are given without their provider.
pub proof fn law_line_names_its_route(
    front: Seq<char>,
    back: Seq<char>,
    json: Seq<char>,
    members: Seq<(Seq<char>, MemberView)>,
)
    ensures
        ({
            let p = audit_in(front, back, Some((json, members)));
            &&& p is Some <==> is_audit_event(members)
            &&& p matches Some(m) ==> {
                &&& m.event.json == json
                &&& m.event.members == members
                &&& said_around(front, back, "middlewareName="@) matches Some(v)
                    ==> m.middleware == Some(bare_name(v))
                &&& said_around(front, back, "routerName="@) matches Some(v) ==> m.router
                    == Some(bare_name(v))
                &&& m.entry_point == said_around(front, back, "entryPointName="@)
                &&& m.middleware is None <==> said_around(front, back, "middlewareName="@) is None
                &&& m.router is None <==> said_around(front, back, "routerName="@) is None
            }
        }),
{
}

/// A line of text is read without its escape sequences; bytes that are no text are no
/// event.
pub proof fn law_line_is_read_as_text(s: Seq<char>, bytes: Seq<u8>)
    ensures
        parsed(encode_utf8(s)) == audit_of(stripped(s)),
        !valid_utf8(bytes) ==> parsed(bytes) is None,
{
    encode_utf8_valid_utf8(s);
    encode_utf8_decode_utf8(s);
}

/// An audit event says what was done, in one of two words, and lists what it would block.
pub proof fn law_audit_event_says_what_was_done(
    members: Seq<(Seq<char>, MemberView)>,
    action: Seq<char>,
)
    requires
        event::text_member(members, "action"@) == Some(action),
    ensures
        is_audit_event(members) <==> (action == "block"@ || action == "allow"@) && event::member(
            members,
            "would_block_rules"@,
        ) is Some,
{
}

} // verus!
