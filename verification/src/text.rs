//! Text as sequences of characters: the operations the rest of the library
//! needs, each stated over `Seq<char>`.
use vstd::prelude::*;
use vstd::string::*;

verus! {

/// `String::push`, from the standard library, appends one character.
pub assume_specification[ String::push ](s: &mut String, c: char)
    ensures
        final(s)@ == old(s)@.push(c),
;

// ---------------------------------------------------------------------------
// Single characters
// ---------------------------------------------------------------------------
/// The ASCII lower-case form of a character; other characters are unchanged.
pub open spec fn lower_char(c: char) -> char {
    if 'A' <= c && c <= 'Z' {
        (c as u32 + 32) as char
    } else {
        c
    }
}

/// The ASCII upper-case form of a character; other characters are unchanged.
pub open spec fn upper_char(c: char) -> char {
    if 'a' <= c && c <= 'z' {
        (c as u32 - 32) as char
    } else {
        c
    }
}

/// The characters with the Unicode `White_Space` property.
pub open spec fn is_space(c: char) -> bool {
    let u = c as u32;
    ||| 0x9 <= u <= 0xd
    ||| u == 0x20
    ||| u == 0x85
    ||| u == 0xa0
    ||| u == 0x1680
    ||| 0x2000 <= u <= 0x200a
    ||| u == 0x2028
    ||| u == 0x2029
    ||| u == 0x202f
    ||| u == 0x205f
    ||| u == 0x3000
}

/// The ASCII control characters, which would break a log line apart.
pub open spec fn is_control(c: char) -> bool {
    (c as u32) < 0x20 || c as u32 == 0x7f
}

/// The decimal digit that stands for `d`.
pub open spec fn digit_char(d: nat) -> char {
    (48 + d) as char
}

/// The value of a hexadecimal digit, upper or lower case.
pub open spec fn hex_value(c: char) -> Option<nat> {
    if '0' <= c && c <= '9' {
        Some((c as u32 - 48) as nat)
    } else if 'a' <= c && c <= 'f' {
        Some((c as u32 - 87) as nat)
    } else if 'A' <= c && c <= 'F' {
        Some((c as u32 - 55) as nat)
    } else {
        None
    }
}

pub fn to_lower_char(c: char) -> (r: char)
    ensures
        r == lower_char(c),
{
    if c >= 'A' && c <= 'Z' {
        ((c as u8) + 32) as char
    } else {
        c
    }
}

pub fn to_upper_char(c: char) -> (r: char)
    ensures
        r == upper_char(c),
{
    if c >= 'a' && c <= 'z' {
        ((c as u8) - 32) as char
    } else {
        c
    }
}

pub fn space_char(c: char) -> (r: bool)
    ensures
        r == is_space(c),
{
    let u: u32 = c as u32;
    (u >= 0x9 && u <= 0xd) || u == 0x20 || u == 0x85 || u == 0xa0 || u == 0x1680 || (u >= 0x2000
        && u <= 0x200a) || u == 0x2028 || u == 0x2029 || u == 0x202f || u == 0x205f || u == 0x3000
}

pub fn control_char(c: char) -> (r: bool)
    ensures
        r == is_control(c),
{
    (c as u32) < 0x20 || c as u32 == 0x7f
}

// ---------------------------------------------------------------------------
// Between text and characters
// ---------------------------------------------------------------------------
/// The characters of a text, one by one.
pub fn chars_of(s: &str) -> (r: Vec<char>)
    ensures
        r@ == s@,
{
    let mut out: Vec<char> = Vec::new();
    for c in it: s.chars()
        invariant
            it.seq() == s@,
            out@ == s@.take(it.index() as int),
    {
        out.push(c);
        assert(s@.take(it.index() + 1) == s@.take(it.index() as int).push(c));
    }
    assert(s@.take(s@.len() as int) == s@);
    out
}

/// The text made of the characters of `s` from `from` up to, not including, `to`.
pub fn text_between(s: &[char], from: usize, to: usize) -> (r: String)
    requires
        from <= to <= s@.len(),
    ensures
        r@ == s@.subrange(from as int, to as int),
{
    let mut out = String::new();
    let mut i: usize = from;
    while i < to
        invariant
            from <= i <= to <= s@.len(),
            out@ == s@.subrange(from as int, i as int),
        decreases to - i,
    {
        out.push(s[i]);
        assert(s@.subrange(from as int, i + 1) == s@.subrange(from as int, i as int).push(
            s@[i as int],
        ));
        i = i + 1;
    }
    out
}

/// Appends a text to another.
pub fn push_text(s: &mut String, t: &str)
    ensures
        final(s)@ == old(s)@ + t@,
{
    s.append(t);
}

/// A text that holds the same characters.
pub fn copy_text(s: &str) -> (r: String)
    ensures
        r@ == s@,
{
    let mut out = String::new();
    out.append(s);
    assert(Seq::<char>::empty() + s@ == s@);
    out
}

/// Two texts put one after the other.
pub fn join2(a: &str, b: &str) -> (r: String)
    ensures
        r@ == a@ + b@,
{
    let mut out = copy_text(a);
    out.append(b);
    out
}

/// Three texts put one after the other.
pub fn join3(a: &str, b: &str, c: &str) -> (r: String)
    ensures
        r@ == a@ + b@ + c@,
{
    let mut out = join2(a, b);
    out.append(c);
    out
}

// ---------------------------------------------------------------------------
// Comparison
// ---------------------------------------------------------------------------
/// Whether two runs of characters are the same.
pub fn same_chars(a: &[char], b: &[char]) -> (r: bool)
    ensures
        r == (a@ == b@),
{
    if a.len() != b.len() {
        return false;
    }
    let mut i: usize = 0;
    while i < a.len()
        invariant
            i <= a@.len(),
            a@.len() == b@.len(),
            forall|k: int| 0 <= k < i ==> a@[k] == b@[k],
        decreases a@.len() - i,
    {
        if a[i] != b[i] {
            assert(a@[i as int] != b@[i as int]);
            return false;
        }
        i = i + 1;
    }
    assert(a@ =~= b@);
    true
}

/// Whether two texts are the same.
pub fn same_text(a: &str, b: &str) -> (r: bool)
    ensures
        r == (a@ == b@),
{
    same_chars(&chars_of(a), &chars_of(b))
}

/// Every ASCII letter of a text in lower case.
pub open spec fn lower(s: Seq<char>) -> Seq<char> {
    s.map_values(|c: char| lower_char(c))
}

/// Every ASCII letter of a text in upper case.
pub open spec fn upper(s: Seq<char>) -> Seq<char> {
    s.map_values(|c: char| upper_char(c))
}

pub fn to_lower(s: &str) -> (r: String)
    ensures
        r@ == lower(s@),
{
    let mut out = String::new();
    for c in it: s.chars()
        invariant
            it.seq() == s@,
            out@ == lower(s@.take(it.index() as int)),
    {
        out.push(to_lower_char(c));
        assert(lower(s@.take(it.index() + 1)) == lower(s@.take(it.index() as int)).push(
            lower_char(c),
        ));
    }
    assert(s@.take(s@.len() as int) == s@);
    out
}

pub fn to_upper(s: &str) -> (r: String)
    ensures
        r@ == upper(s@),
{
    let mut out = String::new();
    for c in it: s.chars()
        invariant
            it.seq() == s@,
            out@ == upper(s@.take(it.index() as int)),
    {
        out.push(to_upper_char(c));
        assert(upper(s@.take(it.index() + 1)) == upper(s@.take(it.index() as int)).push(
            upper_char(c),
        ));
    }
    assert(s@.take(s@.len() as int) == s@);
    out
}

/// Whether two texts are the same up to the case of ASCII letters.
pub fn same_ignoring_case(a: &str, b: &str) -> (r: bool)
    ensures
        r == (lower(a@) == lower(b@)),
{
    same_text(&to_lower(a), &to_lower(b))
}

/// Whether `s` begins with `prefix`.
pub open spec fn has_prefix(s: Seq<char>, prefix: Seq<char>) -> bool {
    s.len() >= prefix.len() && s.take(prefix.len() as int) == prefix
}

/// Whether the characters of `p` stand in `s` from position `at` on.
pub open spec fn stands_at(s: Seq<char>, p: Seq<char>, at: int) -> bool {
    0 <= at && at + p.len() <= s.len() && s.subrange(at, at + p.len()) == p
}

pub fn stands_at_chars(s: &[char], p: &[char], at: usize) -> (r: bool)
    ensures
        r == stands_at(s@, p@, at as int),
{
    let n: usize = s.len();
    if p.len() > n || at > n - p.len() {
        return false;
    }
    let mut i: usize = 0;
    while i < p.len()
        invariant
            i <= p@.len(),
            at + p@.len() <= s@.len(),
            s@.len() == n,
            forall|k: int| 0 <= k < i ==> s@[at + k] == p@[k],
        decreases p@.len() - i,
    {
        if s[at + i] != p[i] {
            assert(s@.subrange(at as int, at + p@.len())[i as int] != p@[i as int]);
            return false;
        }
        i = i + 1;
    }
    assert(s@.subrange(at as int, at + p@.len()) =~= p@);
    true
}

pub fn starts_with(s: &str, prefix: &str) -> (r: bool)
    ensures
        r == has_prefix(s@, prefix@),
{
    let r = stands_at_chars(&chars_of(s), &chars_of(prefix), 0);
    assert(s@.len() >= prefix@.len() ==> s@.subrange(0, prefix@.len() as int) == s@.take(
        prefix@.len() as int,
    ));
    r
}

// ---------------------------------------------------------------------------
// Searching
// ---------------------------------------------------------------------------
/// The first place at which `c` stands in `s`.
pub open spec fn first_index(s: Seq<char>, c: char) -> Option<int>
    decreases s.len(),
{
    if s.len() == 0 {
        None
    } else if s[0] == c {
        Some(0)
    } else {
        match first_index(s.skip(1), c) {
            Some(i) => Some(i + 1),
            None => None,
        }
    }
}

/// What `first_index` finds: the least position of the character.
pub proof fn lemma_first_index(s: Seq<char>, c: char)
    ensures
        match first_index(s, c) {
            Some(i) => 0 <= i < s.len() && s[i] == c && forall|k: int| 0 <= k < i ==> s[k] != c,
            None => forall|k: int| 0 <= k < s.len() ==> s[k] != c,
        },
    decreases s.len(),
{
    if s.len() != 0 && s[0] != c {
        let t = s.skip(1);
        lemma_first_index(t, c);
        match first_index(t, c) {
            Some(i) => {
                assert forall|k: int| 0 <= k < i + 1 implies s[k] != c by {
                    if k > 0 {
                        assert(s[k] == t[k - 1]);
                    }
                }
            },
            None => {
                assert forall|k: int| 0 <= k < s.len() implies s[k] != c by {
                    if k > 0 {
                        assert(s[k] == t[k - 1]);
                    }
                }
            },
        }
    }
}

pub fn find_char(s: &[char], c: char) -> (r: Option<usize>)
    ensures
        match r {
            Some(i) => first_index(s@, c) == Some(i as int),
            None => first_index(s@, c) is None,
        },
{
    proof {
        lemma_first_index(s@, c);
    }
    let mut i: usize = 0;
    while i < s.len()
        invariant
            i <= s@.len(),
            forall|k: int| 0 <= k < i ==> s@[k] != c,
            match first_index(s@, c) {
                Some(j) => 0 <= j < s@.len() && s@[j] == c && forall|k: int|
                    0 <= k < j ==> s@[k] != c,
                None => forall|k: int| 0 <= k < s@.len() ==> s@[k] != c,
            },
        decreases s@.len() - i,
    {
        if s[i] == c {
            return Some(i);
        }
        i = i + 1;
    }
    None
}

/// Whether `c` stands anywhere in the text.
pub fn contains_char(s: &str, c: char) -> (r: bool)
    ensures
        r == s@.contains(c),
{
    let v = chars_of(s);
    let r = find_char(&v, c);
    proof {
        lemma_first_index(s@, c);
        if let Some(i) = first_index(s@, c) {
            assert(s@[i] == c);
        }
    }
    r.is_some()
}

// ---------------------------------------------------------------------------
// Splitting and trimming
// ---------------------------------------------------------------------------
/// The pieces between the separators; a text without one is a single piece.
pub open spec fn split(s: Seq<char>, sep: char) -> Seq<Seq<char>>
    decreases s.len(),
{
    if s.len() == 0 {
        seq![Seq::<char>::empty()]
    } else {
        let before = split(s.drop_last(), sep);
        if s.last() == sep {
            before.push(Seq::<char>::empty())
        } else {
            before.drop_last().push(before.last().push(s.last()))
        }
    }
}

/// A text without the separator is a single piece.
pub proof fn lemma_split_without(s: Seq<char>, sep: char)
    requires
        !s.contains(sep),
    ensures
        split(s, sep) == seq![s],
    decreases s.len(),
{
    if s.len() > 0 {
        assert(!s.drop_last().contains(sep)) by {
            if s.drop_last().contains(sep) {
                let i = choose|i: int| 0 <= i < s.drop_last().len() && s.drop_last()[i] == sep;
                assert(s[i] == sep);
            }
        }
        lemma_split_without(s.drop_last(), sep);
        assert(s.last() != sep) by {
            assert(s[s.len() - 1] == s.last());
        }
        assert(s.drop_last().push(s.last()) =~= s);
        assert(split(s, sep) =~= seq![s]);
    } else {
        assert(s =~= Seq::empty());
    }
}

/// The views of a list of texts.
pub open spec fn texts(v: Seq<String>) -> Seq<Seq<char>> {
    v.map_values(|t: String| t@)
}

pub fn split_chars(s: &[char], sep: char) -> (r: Vec<String>)
    ensures
        texts(r@) == split(s@, sep),
        r@.len() >= 1,
{
    let mut out: Vec<String> = Vec::new();
    let mut cur = String::new();
    let mut i: usize = 0;
    assert(texts(out@).push(cur@) =~= split(s@.take(0), sep));
    while i < s.len()
        invariant
            i <= s@.len(),
            texts(out@).push(cur@) == split(s@.take(i as int), sep),
        decreases s@.len() - i,
    {
        let c = s[i];
        let ghost before = texts(out@).push(cur@);
        let ghost done = texts(out@);
        assert(s@.take(i + 1).drop_last() == s@.take(i as int));
        assert(before.drop_last() =~= done);
        if c == sep {
            out.push(cur);
            assert(texts(out@) =~= before);
            cur = String::new();
        } else {
            cur.push(c);
        }
        assert(texts(out@).push(cur@) =~= split(s@.take(i + 1), sep));
        i = i + 1;
    }
    assert(s@.take(s@.len() as int) == s@);
    let ghost last = cur@;
    let ghost done = texts(out@);
    out.push(cur);
    assert(texts(out@) =~= done.push(last));
    out
}

pub fn split_text(s: &str, sep: char) -> (r: Vec<String>)
    ensures
        texts(r@) == split(s@, sep),
        r@.len() >= 1,
{
    split_chars(&chars_of(s), sep)
}

/// The text without its leading white space.
pub open spec fn trim_start(s: Seq<char>) -> Seq<char>
    decreases s.len(),
{
    if s.len() > 0 && is_space(s[0]) {
        trim_start(s.skip(1))
    } else {
        s
    }
}

/// The text without its trailing white space.
pub open spec fn trim_end(s: Seq<char>) -> Seq<char>
    decreases s.len(),
{
    if s.len() > 0 && is_space(s.last()) {
        trim_end(s.drop_last())
    } else {
        s
    }
}

/// The text without the white space at its two ends.
pub open spec fn trim(s: Seq<char>) -> Seq<char> {
    trim_end(trim_start(s))
}

pub fn trim_start_chars(s: &[char]) -> (r: usize)
    ensures
        r <= s@.len(),
        trim_start(s@) == s@.skip(r as int),
{
    let mut i: usize = 0;
    assert(s@.skip(0) == s@);
    while i < s.len() && space_char(s[i])
        invariant
            i <= s@.len(),
            trim_start(s@) == trim_start(s@.skip(i as int)),
        decreases s@.len() - i,
    {
        assert(s@.skip(i as int).skip(1) == s@.skip(i + 1));
        i = i + 1;
    }
    i
}

pub fn trim_chars(s: &[char]) -> (r: String)
    ensures
        r@ == trim(s@),
{
    let from = trim_start_chars(s);
    let mut to: usize = s.len();
    assert(s@.skip(from as int) == s@.subrange(from as int, to as int));
    while to > from && space_char(s[to - 1])
        invariant
            from <= to <= s@.len(),
            trim_start(s@) == s@.skip(from as int),
            trim(s@) == trim_end(s@.subrange(from as int, to as int)),
        decreases to,
    {
        assert(s@.subrange(from as int, to as int).drop_last() == s@.subrange(
            from as int,
            to - 1,
        ));
        to = to - 1;
    }
    text_between(s, from, to)
}

pub fn trim_text(s: &str) -> (r: String)
    ensures
        r@ == trim(s@),
{
    trim_chars(&chars_of(s))
}

// ---------------------------------------------------------------------------
// Numbers
// ---------------------------------------------------------------------------
/// The decimal numeral of `n`, without leading zeros.
pub open spec fn decimal(n: nat) -> Seq<char>
    decreases n,
{
    if n < 10 {
        seq![digit_char(n)]
    } else {
        decimal(n / 10).push(digit_char(n % 10))
    }
}

pub fn decimal_text(n: u64) -> (r: String)
    ensures
        r@ == decimal(n as nat),
    decreases n,
{
    let d = ((n % 10) as u8 + 48) as char;
    let mut out = if n < 10 {
        String::new()
    } else {
        decimal_text(n / 10)
    };
    out.push(d);
    assert(n < 10 ==> out@ =~= seq![digit_char(n as nat)]);
    out
}

/// A numeral is made of digits, and there is at least one.
pub proof fn lemma_decimal_digits(n: nat)
    ensures
        decimal(n).len() > 0,
        forall|i: int| 0 <= i < decimal(n).len() ==> '0' <= #[trigger] decimal(n)[i] <= '9',
    decreases n,
{
    if n >= 10 {
        lemma_decimal_digits(n / 10);
    }
}

/// A numeral tells its number.
pub proof fn lemma_decimal_injective(a: nat, b: nat)
    requires
        decimal(a) == decimal(b),
    ensures
        a == b,
    decreases a,
{
    let s = decimal(a);
    lemma_decimal_digits(a / 10);
    lemma_decimal_digits(b / 10);
    assert(s.last() == digit_char(a % 10));
    assert(s.last() == digit_char(b % 10));
    if a >= 10 && b >= 10 {
        assert(s.drop_last() =~= decimal(a / 10));
        assert(s.drop_last() =~= decimal(b / 10));
        lemma_decimal_injective(a / 10, b / 10);
    }
}

/// A numeral ends where something else than a digit follows.
pub proof fn lemma_decimal_ends(a: nat, x: Seq<char>, b: nat, y: Seq<char>)
    requires
        decimal(a) + x == decimal(b) + y,
        x.len() > 0 && !('0' <= x[0] <= '9'),
        y.len() > 0 && !('0' <= y[0] <= '9'),
    ensures
        a == b,
        x == y,
{
    let s = decimal(a) + x;
    let m = decimal(a).len() as int;
    let n = decimal(b).len() as int;
    lemma_decimal_digits(a);
    lemma_decimal_digits(b);
    assert(s[m] == x[0]);
    assert(s[n] == y[0]);
    if m < n {
        assert(s[m] == decimal(b)[m]);
    }
    if n < m {
        assert(s[n] == decimal(a)[n]);
    }
    assert(decimal(a) =~= s.take(m));
    assert(decimal(b) =~= s.take(n));
    assert(x =~= s.skip(m));
    assert(y =~= s.skip(n));
    lemma_decimal_injective(a, b);
}

/// A text as Rust writes it for debugging, in quotation marks.
pub uninterp spec fn debug_quoted(s: Seq<char>) -> Seq<char>;

/// The standard library's `Debug` form of a text, by `format!`: a function of
/// the text; what it is, is not said here.
#[verifier::external_body]
pub(crate) fn debug_text(s: &str) -> (r: String)
    ensures
        r@ == debug_quoted(s@),
{
    format!("{s:?}")
}

// ---------------------------------------------------------------------------
// Log safety
// ---------------------------------------------------------------------------
/// Every ASCII control character replaced by a dot.
pub open spec fn scrubbed(s: Seq<char>) -> Seq<char> {
    s.map_values(|c: char| if is_control(c) { '.' } else { c })
}

/// A text with its ASCII control characters replaced by dots.
pub fn scrub(s: &str) -> (r: String)
    ensures
        r@ == scrubbed(s@),
{
    let mut out = String::new();
    for c in it: s.chars()
        invariant
            it.seq() == s@,
            out@ == scrubbed(s@.take(it.index() as int)),
    {
        let d = if control_char(c) {
            '.'
        } else {
            c
        };
        out.push(d);
        assert(scrubbed(s@.take(it.index() + 1)) == scrubbed(s@.take(it.index() as int)).push(d));
    }
    assert(s@.take(s@.len() as int) == s@);
    out
}

/// Scrubbing leaves no control character behind and keeps the length.
pub proof fn law_scrubbed_is_log_safe(s: Seq<char>)
    ensures
        scrubbed(s).len() == s.len(),
        forall|i: int| 0 <= i < s.len() ==> !is_control(#[trigger] scrubbed(s)[i]),
{
}

// ---------------------------------------------------------------------------
// Laws
// ---------------------------------------------------------------------------
/// A separator parts the pieces before it from those behind it, and nothing else
/// does: with `lemma_split_without` this tells every piece of every text.
pub proof fn law_separator_parts_the_pieces(a: Seq<char>, sep: char, b: Seq<char>)
    ensures
        split(a + seq![sep] + b, sep) == split(a, sep) + split(b, sep),
        split(a, sep).len() >= 1,
    decreases b.len(),
{
    lemma_split_nonempty(a, sep);
    lemma_split_nonempty(b, sep);
    let whole = a + seq![sep] + b;
    if b.len() == 0 {
        assert(whole.drop_last() =~= a);
        assert(whole.last() == sep);
        assert(split(whole, sep) =~= split(a, sep) + split(b, sep));
    } else {
        let c = b.drop_last();
        law_separator_parts_the_pieces(a, sep, c);
        lemma_split_nonempty(c, sep);
        assert(whole.drop_last() =~= a + seq![sep] + c);
        assert(whole.last() == b.last());
        assert(split(whole, sep) =~= split(a, sep) + split(b, sep));
    }
}

proof fn lemma_split_nonempty(s: Seq<char>, sep: char)
    ensures
        split(s, sep).len() >= 1,
    decreases s.len(),
{
    if s.len() > 0 {
        lemma_split_nonempty(s.drop_last(), sep);
    }
}

/// Trimming takes away the white space around a text, all of it, and nothing of
/// what stands between.
pub proof fn law_trim_takes_the_space_around(a: Seq<char>, m: Seq<char>, b: Seq<char>)
    requires
        forall|i: int| 0 <= i < a.len() ==> is_space(#[trigger] a[i]),
        forall|i: int| 0 <= i < b.len() ==> is_space(#[trigger] b[i]),
        m.len() > 0 ==> !is_space(m[0]) && !is_space(m.last()),
    ensures
        trim(a + m + b) == m,
{
    lemma_trim_start_skips(a, m + b);
    assert(a + m + b =~= a + (m + b));
    if m.len() > 0 {
        assert((m + b)[0] == m[0]);
        lemma_trim_end_drops(m, b);
    } else {
        assert(m + b =~= b);
        assert(b + m =~= b);
        lemma_trim_start_skips(b, m);
    }
}

proof fn lemma_trim_start_skips(a: Seq<char>, rest: Seq<char>)
    requires
        forall|i: int| 0 <= i < a.len() ==> is_space(#[trigger] a[i]),
    ensures
        trim_start(a + rest) == trim_start(rest),
    decreases a.len(),
{
    if a.len() > 0 {
        let whole = a + rest;
        assert(whole[0] == a[0]);
        assert(whole.skip(1) =~= a.skip(1) + rest);
        lemma_trim_start_skips(a.skip(1), rest);
    } else {
        assert(a + rest =~= rest);
    }
}

proof fn lemma_trim_end_drops(m: Seq<char>, b: Seq<char>)
    requires
        forall|i: int| 0 <= i < b.len() ==> is_space(#[trigger] b[i]),
        m.len() > 0,
        !is_space(m.last()),
    ensures
        trim_end(m + b) == m,
    decreases b.len(),
{
    let whole = m + b;
    if b.len() > 0 {
        assert(whole.last() == b[b.len() - 1]);
        assert(whole.drop_last() =~= m + b.drop_last());
        lemma_trim_end_drops(m, b.drop_last());
    } else {
        assert(whole =~= m);
    }
}

/// White space is what Unicode calls so: in ASCII the blank and the characters
/// from the tab to the carriage return.
pub proof fn law_white_space(c: char)
    ensures
        (c as u32) < 0x80 ==> (is_space(c) <==> c == ' ' || '\t' <= c && c <= '\r'),
        (c as u32) >= 0x80 ==> (is_space(c) <==> c == '\u{85}' || c == '\u{a0}' || c == '\u{1680}'
            || '\u{2000}' <= c && c <= '\u{200a}' || c == '\u{2028}' || c == '\u{2029}' || c
            == '\u{202f}' || c == '\u{205f}' || c == '\u{3000}'),
{
}

/// The case of every ASCII letter changes, wherever it stands, by the distance
/// between the two alphabets, and no other character changes.
pub proof fn law_case_changes_letters_only(s: Seq<char>, i: int)
    requires
        0 <= i < s.len(),
    ensures
        lower(s).len() == s.len(),
        upper(s).len() == s.len(),
        'A' <= s[i] && s[i] <= 'Z' ==> lower(s)[i] as u32 == s[i] as u32 + 32 && upper(s)[i]
            == s[i],
        'a' <= s[i] && s[i] <= 'z' ==> upper(s)[i] as u32 == s[i] as u32 - 32 && lower(s)[i]
            == s[i],
        !('A' <= s[i] && s[i] <= 'Z') && !('a' <= s[i] && s[i] <= 'z') ==> lower(s)[i] == s[i]
            && upper(s)[i] == s[i],
{
}

/// The case of a text does not matter once it is in lower case.
pub proof fn law_lower_case_forgets_the_case(s: Seq<char>)
    ensures
        lower(upper(s)) == lower(s),
        lower(lower(s)) == lower(s),
{
    assert(lower(upper(s)) =~= lower(s));
    assert(lower(lower(s)) =~= lower(s));
}

/// A text begins with a prefix just when it is that prefix with something behind
/// it.
pub proof fn law_prefix_comes_first(s: Seq<char>, prefix: Seq<char>, rest: Seq<char>)
    ensures
        has_prefix(prefix + rest, prefix),
        has_prefix(s, prefix) ==> s == prefix + s.skip(prefix.len() as int),
{
    assert((prefix + rest).take(prefix.len() as int) =~= prefix);
    if has_prefix(s, prefix) {
        assert(s =~= s.take(prefix.len() as int) + s.skip(prefix.len() as int));
    }
}

/// A further digit multiplies a number by ten and adds to it.
pub proof fn law_numeral_grows_by_a_digit(n: nat, d: nat)
    requires
        d < 10,
    ensures
        decimal(d) == seq![(48 + d) as char],
        n > 0 ==> decimal(n * 10 + d) == decimal(n).push((48 + d) as char),
{
    if n > 0 {
        assert((n * 10 + d) / 10 == n && (n * 10 + d) % 10 == d);
    }
}

/// Only control characters are replaced, each by a dot.
pub proof fn law_scrubbing_keeps_the_rest(s: Seq<char>, i: int)
    requires
        0 <= i < s.len(),
    ensures
        scrubbed(s)[i] == if (s[i] as u32) < 0x20 || s[i] as u32 == 0x7f {
            '.'
        } else {
            s[i]
        },
{
}

/// Pieces with a separator between them.
pub open spec fn rejoined(pieces: Seq<Seq<char>>, sep: char) -> Seq<char>
    decreases pieces.len(),
{
    if pieces.len() == 0 {
        Seq::empty()
    } else if pieces.len() == 1 {
        pieces[0]
    } else {
        rejoined(pieces.drop_last(), sep) + seq![sep] + pieces.last()
    }
}

/// The pieces of a text, with the separator between them, are the text; none of them holds
/// the separator.
pub proof fn law_pieces_make_up_the_text(s: Seq<char>, sep: char)
    ensures
        rejoined(split(s, sep), sep) == s,
        forall|i: int| 0 <= i < split(s, sep).len() ==> !(#[trigger] split(s, sep)[i]).contains(sep),
    decreases s.len(),
{
    lemma_split_nonempty(s, sep);
    let p = split(s, sep);
    if s.len() == 0 {
        assert(s =~= Seq::<char>::empty());
    } else {
        let front = s.drop_last();
        let before = split(front, sep);
        lemma_split_nonempty(front, sep);
        law_pieces_make_up_the_text(front, sep);
        assert(s =~= front.push(s.last()));
        assert(p.drop_last() =~= if s.last() == sep {
            before
        } else {
            before.drop_last()
        });
        if s.last() == sep {
            assert(front + seq![sep] + Seq::<char>::empty() =~= s);
        } else {
            let last = before.last();
            assert(p.last() == last.push(s.last()));
            assert(!last.contains(sep));
            assert(!last.push(s.last()).contains(sep)) by {
                vstd::seq_lib::lemma_seq_contains_after_push(last, s.last(), sep);
            }
            if before.len() == 1 {
                assert(front == before[0]);
                assert(p[0] =~= s);
            } else {
                assert(front == rejoined(before.drop_last(), sep) + seq![sep] + last);
                assert(rejoined(before.drop_last(), sep) + seq![sep] + last.push(s.last()) =~= s);
            }
        }
    }
}

/// Pieces that do not hold the separator are found again where it is put between them.
pub proof fn law_joined_pieces_are_found_again(pieces: Seq<Seq<char>>, sep: char)
    requires
        pieces.len() > 0,
        forall|i: int| 0 <= i < pieces.len() ==> !(#[trigger] pieces[i]).contains(sep),
    ensures
        split(rejoined(pieces, sep), sep) == pieces,
    decreases pieces.len(),
{
    if pieces.len() == 1 {
        lemma_split_without(pieces[0], sep);
        assert(pieces =~= seq![pieces[0]]);
    } else {
        let front = pieces.drop_last();
        assert forall|i: int| 0 <= i < front.len() implies !(#[trigger] front[i]).contains(sep) by {
            assert(front[i] == pieces[i]);
        }
        assert(!pieces[pieces.len() - 1].contains(sep));
        law_joined_pieces_are_found_again(front, sep);
        law_separator_parts_the_pieces(rejoined(front, sep), sep, pieces.last());
        lemma_split_without(pieces.last(), sep);
        assert(front + seq![pieces.last()] =~= pieces);
    }
}

/// The digits of base sixteen count from nought to nine and on to fifteen, and a capital
/// counts as its small letter.
pub proof fn law_digits_count_to_fifteen(c: char, k: u32)
    ensures
        k < 10 && c as u32 == '0' as u32 + k ==> hex_value(c) == Some(k as nat),
        k < 6 && c as u32 == 'a' as u32 + k ==> hex_value(c) == Some((10 + k) as nat),
        k < 6 && c as u32 == 'A' as u32 + k ==> hex_value(c) == Some((10 + k) as nat),
        hex_value(c) matches Some(n) ==> n < 16,
        hex_value(c) is None <==> !('0' <= c && c <= '9') && !('a' <= c && c <= 'f') && !('A' <= c
            && c <= 'F'),
{
}

} // verus!
