//! Internet addresses: their values, how they are read and how they are written.
use vstd::prelude::*;

use crate::text;
use crate::text::{chars_of, copy_text, decimal_text, push_text, split_chars, text_between};

verus! {

/// An address, by its value in network order.
#[derive(Debug, Clone, Copy, PartialEq, Eq, Hash, Structural)]
pub enum IpAddr {
    /// An IPv4 address.
    V4(u32),
    /// An IPv6 address.
    V6(u128),
}

// ---------------------------------------------------------------------------
// Reading
// ---------------------------------------------------------------------------
/// Every character is a decimal digit.
pub open spec fn all_digits(s: Seq<char>) -> bool {
    forall|i: int| 0 <= i < s.len() ==> '0' <= #[trigger] s[i] && s[i] <= '9'
}

/// The value of a run of decimal digits.
pub open spec fn decimal_value(s: Seq<char>) -> nat
    decreases s.len(),
{
    if s.len() == 0 {
        0
    } else {
        decimal_value(s.drop_last()) * 10 + (s.last() as u32 - 48) as nat
    }
}

/// One part of a dotted quad: at most three digits, no leading zero, at most 255.
pub open spec fn octet(s: Seq<char>) -> Option<nat> {
    if 1 <= s.len() <= 3 && all_digits(s) && (s.len() > 1 ==> s[0] != '0') && decimal_value(s)
        <= 255 {
        Some(decimal_value(s))
    } else {
        None
    }
}

/// The value of four octets.
pub open spec fn quad(a: nat, b: nat, c: nat, d: nat) -> nat {
    a * 16777216 + b * 65536 + c * 256 + d
}

/// The address a dotted quad stands for.
pub open spec fn v4_of(s: Seq<char>) -> Option<nat> {
    let p = text::split(s, '.');
    if p.len() == 4 && octet(p[0]) is Some && octet(p[1]) is Some && octet(p[2]) is Some && octet(
        p[3],
    ) is Some {
        Some(quad(octet(p[0])->0, octet(p[1])->0, octet(p[2])->0, octet(p[3])->0))
    } else {
        None
    }
}

/// Every character is a hexadecimal digit.
pub open spec fn all_hex(s: Seq<char>) -> bool {
    forall|i: int| 0 <= i < s.len() ==> text::hex_value(#[trigger] s[i]) is Some
}

/// The value of a run of hexadecimal digits.
pub open spec fn hex_number(s: Seq<char>) -> nat
    decreases s.len(),
{
    if s.len() == 0 {
        0
    } else {
        hex_number(s.drop_last()) * 16 + text::hex_value(s.last())->0
    }
}

/// One group of an IPv6 address: one to four hexadecimal digits.
pub open spec fn hex_group(s: Seq<char>) -> Option<nat> {
    if 1 <= s.len() <= 4 && all_hex(s) {
        Some(hex_number(s))
    } else {
        None
    }
}

/// The groups of a list of pieces. Where a quad is allowed, the last piece may
/// be a dotted quad, which stands for two groups.
pub open spec fn groups_of(pieces: Seq<Seq<char>>, quad_allowed: bool) -> Option<Seq<nat>>
    decreases pieces.len(),
{
    if pieces.len() == 0 {
        Some(Seq::empty())
    } else {
        match groups_of(pieces.drop_last(), false) {
            None => None,
            Some(before) => match hex_group(pieces.last()) {
                Some(g) => Some(before.push(g)),
                None => match v4_of(pieces.last()) {
                    Some(v) => if quad_allowed {
                        Some(before.push(v / 65536).push(v % 65536))
                    } else {
                        None
                    },
                    None => None,
                },
            },
        }
    }
}

/// The groups of a text of pieces between colons; the empty text has none.
pub open spec fn colon_groups(s: Seq<char>, quad_allowed: bool) -> Option<Seq<nat>> {
    if s.len() == 0 {
        Some(Seq::empty())
    } else {
        groups_of(text::split(s, ':'), quad_allowed)
    }
}

/// The value of groups of sixteen bits.
pub open spec fn groups_value(g: Seq<nat>) -> nat
    decreases g.len(),
{
    if g.len() == 0 {
        0
    } else {
        groups_value(g.drop_last()) * 65536 + g.last()
    }
}

/// `n` groups that are zero.
pub open spec fn zeros(n: nat) -> Seq<nat> {
    Seq::new(n, |i: int| 0nat)
}

/// Where the first `::` stands at or after `from`.
pub open spec fn double_colon(s: Seq<char>, from: int) -> Option<int>
    decreases s.len() - from,
{
    if from < 0 || from + 1 >= s.len() {
        None
    } else if s[from] == ':' && s[from + 1] == ':' {
        Some(from)
    } else {
        double_colon(s, from + 1)
    }
}

/// The address an IPv6 text stands for: eight groups, or fewer round a `::`
/// that stands for at least one group of zeros.
pub open spec fn v6_of(s: Seq<char>) -> Option<nat> {
    match double_colon(s, 0) {
        None => match colon_groups(s, true) {
            Some(g) => if g.len() == 8 {
                Some(groups_value(g))
            } else {
                None
            },
            None => None,
        },
        Some(i) => match (colon_groups(s.take(i), false), colon_groups(s.skip(i + 2), true)) {
            (Some(h), Some(t)) => if h.len() + t.len() <= 7 {
                Some(groups_value(h + zeros((8 - h.len() - t.len()) as nat) + t))
            } else {
                None
            },
            _ => None,
        },
    }
}

/// The address a text stands for.
pub open spec fn ip_of(s: Seq<char>) -> Option<IpAddr> {
    match v4_of(s) {
        Some(v) => Some(IpAddr::V4(v as u32)),
        None => match v6_of(s) {
            Some(v) => Some(IpAddr::V6(v as u128)),
            None => None,
        },
    }
}

fn parse_octet(s: &[char]) -> (r: Option<u32>)
    ensures
        match r {
            Some(v) => octet(s@) == Some(v as nat) && v <= 255,
            None => octet(s@) is None,
        },
{
    let n: usize = s.len();
    if n == 0 || n > 3 {
        return None;
    }
    let mut v: u32 = 0;
    let mut i: usize = 0;
    while i < n
        invariant
            i <= n <= 3,
            n == s@.len(),
            all_digits(s@.take(i as int)),
            v == decimal_value(s@.take(i as int)),
            i == 0 ==> v == 0,
            i == 1 ==> v <= 9,
            i == 2 ==> v <= 99,
            i == 3 ==> v <= 999,
        decreases n - i,
    {
        let c = s[i];
        if c < '0' || c > '9' {
            assert(!all_digits(s@)) by {
                assert(s@[i as int] == c);
            }
            return None;
        }
        assert(s@.take(i + 1).drop_last() == s@.take(i as int));
        assert forall|k: int| 0 <= k < i + 1 implies '0' <= #[trigger] s@.take(i + 1)[k] && s@.take(
            i + 1,
        )[k] <= '9' by {
            if k < i {
                assert(s@.take(i + 1)[k] == s@.take(i as int)[k]);
            }
        }
        v = v * 10 + (c as u32 - 48);
        i = i + 1;
    }
    assert(s@.take(n as int) == s@);
    if (n > 1 && s[0] == '0') || v > 255 {
        return None;
    }
    Some(v)
}

fn parse_v4(s: &[char]) -> (r: Option<u32>)
    ensures
        match r {
            Some(v) => v4_of(s@) == Some(v as nat),
            None => v4_of(s@) is None,
        },
{
    let p = split_chars(s, '.');
    if p.len() != 4 {
        return None;
    }
    assert(forall|i: int| 0 <= i < 4 ==> text::split(s@, '.')[i] == (#[trigger] p@[i])@);
    let a = parse_octet(&chars_of(&p[0]));
    let b = parse_octet(&chars_of(&p[1]));
    let c = parse_octet(&chars_of(&p[2]));
    let d = parse_octet(&chars_of(&p[3]));
    match (a, b, c, d) {
        (Some(a), Some(b), Some(c), Some(d)) => Some(a * 16777216 + b * 65536 + c * 256 + d),
        _ => None,
    }
}

fn hex_digit(c: char) -> (r: Option<u16>)
    ensures
        match r {
            Some(v) => text::hex_value(c) == Some(v as nat) && v < 16,
            None => text::hex_value(c) is None,
        },
{
    if c >= '0' && c <= '9' {
        Some((c as u16) - 48)
    } else if c >= 'a' && c <= 'f' {
        Some((c as u16) - 87)
    } else if c >= 'A' && c <= 'F' {
        Some((c as u16) - 55)
    } else {
        None
    }
}

fn parse_group(s: &[char]) -> (r: Option<u16>)
    ensures
        match r {
            Some(v) => hex_group(s@) == Some(v as nat),
            None => hex_group(s@) is None,
        },
{
    let n: usize = s.len();
    if n == 0 || n > 4 {
        return None;
    }
    let mut v: u16 = 0;
    let mut i: usize = 0;
    while i < n
        invariant
            i <= n <= 4,
            n == s@.len(),
            all_hex(s@.take(i as int)),
            v == hex_number(s@.take(i as int)),
            i == 0 ==> v == 0,
            i == 1 ==> v < 16,
            i == 2 ==> v < 256,
            i == 3 ==> v < 4096,
        decreases n - i,
    {
        match hex_digit(s[i]) {
            None => {
                assert(text::hex_value(s@[i as int]) is None);
                return None;
            },
            Some(d) => {
                assert(s@.take(i + 1).drop_last() == s@.take(i as int));
                assert forall|k: int| 0 <= k < i + 1 implies text::hex_value(
                    #[trigger] s@.take(i + 1)[k],
                ) is Some by {
                    if k < i {
                        assert(s@.take(i + 1)[k] == s@.take(i as int)[k]);
                    }
                }
                v = v * 16 + d;
            },
        }
        i = i + 1;
    }
    assert(s@.take(n as int) == s@);
    Some(v)
}

/// The values of a list of groups.
pub open spec fn group_values(g: Seq<u16>) -> Seq<nat> {
    g.map_values(|x: u16| x as nat)
}

proof fn lemma_group_values_push(g: Seq<u16>, x: u16)
    ensures
        group_values(g.push(x)) == group_values(g).push(x as nat),
{
    assert(group_values(g.push(x)) =~= group_values(g).push(x as nat));
}

proof fn lemma_groups_none(pieces: Seq<Seq<char>>, quad_allowed: bool, k: int)
    requires
        0 <= k <= pieces.len(),
        groups_of(pieces.take(k), k == pieces.len() && quad_allowed) is None,
    ensures
        groups_of(pieces, quad_allowed) is None,
    decreases pieces.len() - k,
{
    if k == pieces.len() {
        assert(pieces.take(k) == pieces);
    } else {
        assert(pieces.take(k + 1).drop_last() == pieces.take(k));
        lemma_groups_none(pieces, quad_allowed, k + 1);
    }
}

fn parse_groups(s: &[char], quad_allowed: bool) -> (r: Option<Vec<u16>>)
    ensures
        match r {
            Some(g) => colon_groups(s@, quad_allowed) == Some(group_values(g@)),
            None => colon_groups(s@, quad_allowed) is None,
        },
{
    let mut out: Vec<u16> = Vec::new();
    if s.len() == 0 {
        assert(group_values(out@) =~= Seq::<nat>::empty());
        return Some(out);
    }
    let pieces = split_chars(s, ':');
    let ghost all = text::split(s@, ':');
    let n: usize = pieces.len();
    let mut i: usize = 0;
    assert(group_values(out@) =~= Seq::<nat>::empty());
    while i < n
        invariant
            i <= n == pieces@.len(),
            all == text::texts(pieces@),
            all == text::split(s@, ':'),
            s@.len() > 0,
            i < n ==> groups_of(all.take(i as int), false) == Some(group_values(out@)),
            i == n ==> groups_of(all, quad_allowed) == Some(group_values(out@)),
        decreases n - i,
    {
        let piece = chars_of(&pieces[i]);
        let ghost before = group_values(out@);
        assert(all.take(i + 1).drop_last() == all.take(i as int));
        assert(all.take(i + 1).last() == piece@);
        assert(i + 1 == n ==> all.take(i + 1) == all);
        match parse_group(&piece) {
            Some(g) => {
                out.push(g);
                assert(group_values(out@) =~= before.push(g as nat));
            },
            None => {
                match parse_v4(&piece) {
                    Some(v) => {
                        if i + 1 == n && quad_allowed {
                            out.push((v / 65536) as u16);
                            out.push((v % 65536) as u16);
                            assert(group_values(out@) =~= before.push((v / 65536) as nat).push(
                                (v % 65536) as nat,
                            ));
                        } else {
                            proof {
                                lemma_groups_none(all, quad_allowed, i + 1);
                            }
                            return None;
                        }
                    },
                    None => {
                        proof {
                            lemma_groups_none(all, quad_allowed, i + 1);
                        }
                        return None;
                    },
                }
            },
        }
        i = i + 1;
    }
    Some(out)
}

proof fn lemma_groups_value_bound(g: Seq<nat>)
    requires
        forall|i: int| 0 <= i < g.len() ==> #[trigger] g[i] < 65536,
        g.len() <= 8,
    ensures
        groups_value(g) < vstd::arithmetic::power::pow(65536, g.len()),
    decreases g.len(),
{
    reveal(vstd::arithmetic::power::pow);
    if g.len() > 0 {
        assert forall|i: int| 0 <= i < g.drop_last().len() implies #[trigger] g.drop_last()[i]
            < 65536 by {
            assert(g[i] < 65536);
        }
        lemma_groups_value_bound(g.drop_last());
        assert(g.last() < 65536);
    }
}

/// The value of at most eight groups.
fn value_of(g: &Vec<u16>) -> (r: u128)
    requires
        g@.len() <= 8,
    ensures
        r == groups_value(group_values(g@)),
{
    let ghost vs = group_values(g@);
    let mut v: u128 = 0;
    let mut i: usize = 0;
    while i < g.len()
        invariant
            i <= g@.len() <= 8,
            vs == group_values(g@),
            v == groups_value(vs.take(i as int)),
        decreases g@.len() - i,
    {
        proof {
            assert(vs.take(i + 1).drop_last() == vs.take(i as int));
            lemma_groups_value_bound(vs.take(i as int));
            lemma_pow_small();
            vstd::arithmetic::power::lemma_pow_increases(65536, i as nat, 7);
        }
        v = v * 65536 + g[i] as u128;
        i = i + 1;
    }
    assert(vs.take(vs.len() as int) == vs);
    v
}

proof fn lemma_pow_small()
    ensures
        vstd::arithmetic::power::pow(65536, 7) == 0x10000000000000000000000000000int,
{
    reveal(vstd::arithmetic::power::pow);
    assert(vstd::arithmetic::power::pow(65536, 7) == 0x10000000000000000000000000000int) by {
        reveal_with_fuel(vstd::arithmetic::power::pow, 8);
    }
}

fn find_double_colon(s: &[char]) -> (r: Option<usize>)
    ensures
        match r {
            Some(i) => double_colon(s@, 0) == Some(i as int) && i + 2 <= s@.len(),
            None => double_colon(s@, 0) is None,
        },
{
    let n: usize = s.len();
    if n < 2 {
        return None;
    }
    let mut i: usize = 0;
    while i < n - 1
        invariant
            2 <= n == s@.len(),
            i < n,
            double_colon(s@, 0) == double_colon(s@, i as int),
        decreases n - i,
    {
        if s[i] == ':' && s[i + 1] == ':' {
            return Some(i);
        }
        i = i + 1;
    }
    None
}

fn parse_v6(s: &[char]) -> (r: Option<u128>)
    ensures
        match r {
            Some(v) => v6_of(s@) == Some(v as nat),
            None => v6_of(s@) is None,
        },
{
    let n: usize = s.len();
    match find_double_colon(s) {
        None => match parse_groups(s, true) {
            Some(g) => if g.len() == 8 {
                Some(value_of(&g))
            } else {
                None
            },
            None => None,
        },
        Some(i) => {
            let head_text = text_between(s, 0, i);
            let tail_text = text_between(s, i + 2, n);
            assert(s@.subrange(0, i as int) == s@.take(i as int));
            assert(s@.subrange(i + 2, s@.len() as int) == s@.skip(i + 2));
            let head = parse_groups(&chars_of(&head_text), false);
            let tail = parse_groups(&chars_of(&tail_text), true);
            match (head, tail) {
                (Some(h), Some(t)) => {
                    if h.len() > 7 || t.len() > 7 - h.len() {
                        return None;
                    }
                    let gap: usize = 8 - h.len() - t.len();
                    let mut g: Vec<u16> = Vec::new();
                    let mut k: usize = 0;
                    while k < h.len()
                        invariant
                            k <= h@.len(),
                            g@ == h@.take(k as int),
                        decreases h@.len() - k,
                    {
                        g.push(h[k]);
                        k = k + 1;
                    }
                    k = 0;
                    assert(group_values(g@) =~= group_values(h@) + zeros(0));
                    while k < gap
                        invariant
                            k <= gap,
                            g@.len() == h@.len() + k,
                            group_values(g@) == group_values(h@) + zeros(k as nat),
                        decreases gap - k,
                    {
                        proof {
                            lemma_group_values_push(g@, 0);
                            assert(zeros((k + 1) as nat) =~= zeros(k as nat).push(0));
                        }
                        g.push(0);
                        assert(group_values(g@) =~= group_values(h@) + zeros((k + 1) as nat));
                        k = k + 1;
                    }
                    k = 0;
                    let ghost front = group_values(g@);
                    assert(group_values(t@).take(0) =~= Seq::<nat>::empty());
                    while k < t.len()
                        invariant
                            k <= t@.len(),
                            g@.len() == front.len() + k,
                            group_values(g@) == front + group_values(t@).take(k as int),
                        decreases t@.len() - k,
                    {
                        proof {
                            lemma_group_values_push(g@, t@[k as int]);
                            assert(group_values(t@).take(k + 1) =~= group_values(t@).take(
                                k as int,
                            ).push(t@[k as int] as nat));
                        }
                        g.push(t[k]);
                        assert(group_values(g@) =~= front + group_values(t@).take(k + 1));
                        k = k + 1;
                    }
                    assert(group_values(t@).take(t@.len() as int) == group_values(t@));
                    Some(value_of(&g))
                },
                _ => None,
            }
        },
    }
}

/// Reads an address.
pub fn parse_ip(s: &str) -> (r: Option<IpAddr>)
    ensures
        r == ip_of(s@),
{
    let c = chars_of(s);
    match parse_v4(&c) {
        Some(v) => Some(IpAddr::V4(v)),
        None => match parse_v6(&c) {
            Some(v) => Some(IpAddr::V6(v)),
            None => None,
        },
    }
}

/// The text is no address.
#[derive(Debug, Clone, Copy, PartialEq, Eq)]
pub struct AddrParseError;

impl std::str::FromStr for IpAddr {
    type Err = AddrParseError;

    fn from_str(s: &str) -> (r: Result<IpAddr, AddrParseError>)
        ensures
            match r {
                Ok(ip) => ip_of(s@) == Some(ip),
                Err(_) => ip_of(s@) is None,
            },
    {
        match parse_ip(s) {
            Some(ip) => Ok(ip),
            None => Err(AddrParseError),
        }
    }
}

// ---------------------------------------------------------------------------
// Writing
// ---------------------------------------------------------------------------
/// The dotted quad of an address.
pub open spec fn v4_text(v: nat) -> Seq<char> {
    text::decimal(v / 16777216) + "."@ + text::decimal(v / 65536 % 256) + "."@ + text::decimal(v / 256 % 256) + "."@
        + text::decimal(v % 256)
}

/// The character of one hexadecimal digit, lower case.
pub open spec fn hex_char(d: nat) -> char {
    if d < 10 {
        (48 + d) as char
    } else {
        (87 + d) as char
    }
}

/// The hexadecimal numeral of `n`, without leading zeros.
pub open spec fn hex(n: nat) -> Seq<char>
    decreases n,
{
    if n < 16 {
        seq![hex_char(n)]
    } else {
        hex(n / 16).push(hex_char(n % 16))
    }
}

/// The lowest `n` groups of sixteen bits of a value, highest first.
pub open spec fn value_groups(v: nat, n: nat) -> Seq<nat>
    decreases n,
{
    if n == 0 {
        Seq::empty()
    } else {
        value_groups(v / 65536, (n - 1) as nat).push(v % 65536)
    }
}

/// The number of groups that are zero from `i` on, without a gap.
pub open spec fn zero_run(g: Seq<nat>, i: int) -> nat
    decreases g.len() - i,
{
    if 0 <= i < g.len() && g[i] == 0 {
        1 + zero_run(g, i + 1)
    } else {
        0
    }
}

/// Of the first `n` positions, the first at which the longest run of zeros starts.
pub open spec fn best_run(g: Seq<nat>, n: nat) -> int
    decreases n,
{
    if n <= 1 {
        0
    } else {
        let before = best_run(g, (n - 1) as nat);
        if zero_run(g, n - 1) > zero_run(g, before) {
            n - 1
        } else {
            before
        }
    }
}

/// Groups in hexadecimal, with colons between them.
pub open spec fn joined(g: Seq<nat>) -> Seq<char>
    decreases g.len(),
{
    if g.len() == 0 {
        Seq::empty()
    } else if g.len() == 1 {
        hex(g[0])
    } else {
        joined(g.drop_last()) + ":"@ + hex(g.last())
    }
}

/// The text of an IPv6 address: a mapped IPv4 address as a dotted quad, else
/// the first longest run of two or more zero groups as `::`.
pub open spec fn v6_text(v: nat) -> Seq<char> {
    let g = value_groups(v, 8);
    if g.take(6) == seq![0nat, 0nat, 0nat, 0nat, 0nat, 65535nat] {
        "::ffff:"@ + v4_text(g[6] * 65536 + g[7])
    } else {
        let b = best_run(g, 8);
        let l = zero_run(g, b);
        if l > 1 {
            joined(g.take(b)) + "::"@ + joined(g.skip(b + l))
        } else {
            joined(g)
        }
    }
}

impl IpAddr {
    /// The text of an address.
    pub open spec fn text(self) -> Seq<char> {
        match self {
            IpAddr::V4(v) => v4_text(v as nat),
            IpAddr::V6(v) => v6_text(v as nat),
        }
    }
}

fn write_v4(v: u32) -> (r: String)
    ensures
        r@ == v4_text(v as nat),
{
    let mut out = decimal_text((v / 16777216) as u64);
    push_text(&mut out, ".");
    push_text(&mut out, &decimal_text((v / 65536 % 256) as u64));
    push_text(&mut out, ".");
    push_text(&mut out, &decimal_text((v / 256 % 256) as u64));
    push_text(&mut out, ".");
    push_text(&mut out, &decimal_text((v % 256) as u64));
    out
}

fn write_hex(n: u16) -> (r: String)
    ensures
        r@ == hex(n as nat),
    decreases n,
{
    let d: u8 = (n % 16) as u8;
    let c = if d < 10 {
        (d + 48) as char
    } else {
        (d + 87) as char
    };
    let mut out = if n < 16 {
        String::new()
    } else {
        write_hex(n / 16)
    };
    out.push(c);
    assert(n < 16 ==> out@ =~= seq![hex_char(n as nat)]);
    out
}

fn split_groups(v: u128, n: u8) -> (r: Vec<u16>)
    ensures
        group_values(r@) == value_groups(v as nat, n as nat),
        r@.len() == n,
    decreases n,
{
    if n == 0 {
        let r: Vec<u16> = Vec::new();
        assert(group_values(r@) =~= Seq::<nat>::empty());
        r
    } else {
        let mut out = split_groups(v / 65536, n - 1);
        let ghost before = group_values(out@);
        out.push((v % 65536) as u16);
        assert(group_values(out@) =~= before.push((v % 65536) as nat));
        out
    }
}

fn count_zero_run(g: &Vec<u16>, i: usize) -> (r: usize)
    requires
        i <= g@.len(),
    ensures
        r == zero_run(group_values(g@), i as int),
        i + r <= g@.len(),
    decreases g@.len() - i,
{
    if i < g.len() && g[i] == 0 {
        1 + count_zero_run(g, i + 1)
    } else {
        0
    }
}

fn write_joined(g: &Vec<u16>, from: usize, to: usize) -> (r: String)
    requires
        from <= to <= g@.len(),
    ensures
        r@ == joined(group_values(g@).subrange(from as int, to as int)),
    decreases to - from,
{
    let ghost part = group_values(g@).subrange(from as int, to as int);
    if from == to {
        String::new()
    } else if to - from == 1 {
        write_hex(g[from])
    } else {
        assert(part.drop_last() == group_values(g@).subrange(from as int, to - 1));
        let mut out = write_joined(g, from, to - 1);
        push_text(&mut out, ":");
        push_text(&mut out, &write_hex(g[to - 1]));
        out
    }
}

fn write_v6(v: u128) -> (r: String)
    ensures
        r@ == v6_text(v as nat),
{
    let g = split_groups(v, 8);
    let ghost gs = group_values(g@);
    if g[0] == 0 && g[1] == 0 && g[2] == 0 && g[3] == 0 && g[4] == 0 && g[5] == 65535 {
        assert(gs.take(6) =~= seq![0nat, 0nat, 0nat, 0nat, 0nat, 65535nat]);
        let mut out = copy_text("::ffff:");
        push_text(&mut out, &write_v4(g[6] as u32 * 65536 + g[7] as u32));
        return out;
    }
    proof {
        let t = seq![0nat, 0nat, 0nat, 0nat, 0nat, 65535nat];
        if gs.take(6) == t {
            assert(forall|i: int| 0 <= i < 6 ==> gs.take(6)[i] == gs[i]);
            assert(t[0] == 0 && t[1] == 0 && t[2] == 0 && t[3] == 0 && t[4] == 0 && t[5] == 65535);
            assert(gs[0] == 0 && gs[1] == 0 && gs[2] == 0 && gs[3] == 0 && gs[4] == 0 && gs[5]
                == 65535);
        }
    }
    let mut best: usize = 0;
    let mut run: usize = count_zero_run(&g, 0);
    let mut i: usize = 1;
    while i < 8
        invariant
            1 <= i <= 8,
            g@.len() == 8,
            gs == group_values(g@),
            best < 8,
            best == best_run(gs, i as nat),
            run == zero_run(gs, best as int),
            best + run <= 8,
        decreases 8 - i,
    {
        let here = count_zero_run(&g, i);
        if here > run {
            best = i;
            run = here;
        }
        i = i + 1;
    }
    if run > 1 {
        let mut out = write_joined(&g, 0, best);
        assert(gs.subrange(0, best as int) == gs.take(best as int));
        push_text(&mut out, "::");
        push_text(&mut out, &write_joined(&g, best + run, 8));
        assert(gs.subrange(best + run, 8) == gs.skip(best + run));
        out
    } else {
        assert(gs.subrange(0, 8) == gs);
        write_joined(&g, 0, 8)
    }
}

impl IpAddr {
    /// Writes an address.
    pub fn to_text(&self) -> (r: String)
        ensures
            r@ == self.text(),
    {
        match self {
            IpAddr::V4(v) => write_v4(*v),
            IpAddr::V6(v) => write_v6(*v),
        }
    }
}

// ---------------------------------------------------------------------------
// Laws
// ---------------------------------------------------------------------------
proof fn lemma_decimal_of_digits(s: Seq<char>)
    requires
        s.len() >= 1,
        all_digits(s),
        s.len() > 1 ==> s[0] != '0',
    ensures
        text::decimal(decimal_value(s)) == s,
    decreases s.len(),
{
    let front = s.drop_last();
    if s.len() == 1 {
        assert(decimal_value(front) == 0);
        assert('0' <= s[0] && s[0] <= '9');
        assert(text::decimal(decimal_value(s)) =~= s);
    } else {
        assert forall|i: int| 0 <= i < front.len() implies '0' <= #[trigger] front[i] && front[i]
            <= '9' by {
            assert(front[i] == s[i]);
        }
        lemma_decimal_of_digits(front);
        let v = decimal_value(front);
        if v == 0 {
            assert(text::decimal(0)[0] == '0');
            assert(front[0] == s[0]);
        }
        let c = s[s.len() - 1];
        assert('0' <= c && c <= '9');
        let d = (c as u32 - 48) as nat;
        assert((v * 10 + d) / 10 == v && (v * 10 + d) % 10 == d);
        assert(text::decimal(v * 10 + d) =~= s);
    }
}

proof fn lemma_digits_of_decimal(n: nat)
    ensures
        all_digits(text::decimal(n)),
        decimal_value(text::decimal(n)) == n,
        text::decimal(n).len() >= 1,
        n > 0 ==> text::decimal(n)[0] != '0',
        n == 0 ==> text::decimal(n).len() == 1,
    decreases n,
{
    let s = text::decimal(n);
    text::lemma_decimal_digits(n);
    if n < 10 {
        assert(s.drop_last() =~= Seq::<char>::empty());
        assert(decimal_value(s.drop_last()) == 0);
    } else {
        lemma_digits_of_decimal(n / 10);
        assert(s.drop_last() =~= text::decimal(n / 10));
        assert(s[0] == text::decimal(n / 10)[0]);
    }
}

/// A part of an IPv4 address is a number up to 255 as one writes it: nothing before its
/// first digit and no zero there.
pub proof fn law_octet_is_a_small_number(s: Seq<char>, n: nat)
    ensures
        octet(s) == Some(n) <==> n <= 255 && s == text::decimal(n),
{
    if octet(s) == Some(n) {
        lemma_decimal_of_digits(s);
    }
    if n <= 255 && s == text::decimal(n) {
        lemma_digits_of_decimal(n);
        reveal_with_fuel(text::decimal, 4);
        assert(s.len() <= 3);
    }
}

proof fn lemma_four_joined(p: Seq<Seq<char>>)
    requires
        p.len() == 4,
    ensures
        text::rejoined(p, '.') == p[0] + "."@ + p[1] + "."@ + p[2] + "."@ + p[3],
{
    reveal_strlit(".");
    assert("."@ =~= seq!['.']);
    let p3 = p.drop_last();
    let p2 = p3.drop_last();
    let p1 = p2.drop_last();
    assert(p3.last() == p[2] && p2.last() == p[1] && p1[0] == p[0]);
    assert(text::rejoined(p1, '.') == p[0]);
    assert(text::rejoined(p2, '.') == p[0] + seq!['.'] + p[1]);
    assert(text::rejoined(p3, '.') == p[0] + seq!['.'] + p[1] + seq!['.'] + p[2]);
}

#[verifier::spinoff_prover]
proof fn lemma_quad_parts(a: nat, b: nat, c: nat, d: nat)
    requires
        a <= 255 && b <= 255 && c <= 255 && d <= 255,
    ensures
        quad(a, b, c, d) < 0x1_0000_0000,
        quad(a, b, c, d) / 16777216 == a,
        quad(a, b, c, d) / 65536 % 256 == b,
        quad(a, b, c, d) / 256 % 256 == c,
        quad(a, b, c, d) % 256 == d,
{
    let v = quad(a, b, c, d);
    let high = 256 * a + b;
    let upper = 256 * high + c;
    assert(v == 256 * upper + d);
    assert(v / 256 == upper);
    assert(v % 256 == d);
    assert(upper % 256 == c);
    assert(v == 65536 * high + (256 * c + d));
    assert(v / 65536 == high);
    assert(high % 256 == b);
    assert(v == 16777216 * a + (65536 * b + 256 * c + d));
    assert(v / 16777216 == a);
}

proof fn lemma_v4_read(s: Seq<char>, v: nat)
    requires
        v4_of(s) == Some(v),
    ensures
        v < 0x1_0000_0000,
        s == v4_text(v),
{
    let p = text::split(s, '.');
    text::law_pieces_make_up_the_text(s, '.');
    let (a, b, c, d) = (octet(p[0])->0, octet(p[1])->0, octet(p[2])->0, octet(p[3])->0);
    law_octet_is_a_small_number(p[0], a);
    law_octet_is_a_small_number(p[1], b);
    law_octet_is_a_small_number(p[2], c);
    law_octet_is_a_small_number(p[3], d);
    lemma_four_joined(p);
    lemma_quad_parts(a, b, c, d);
}

proof fn lemma_no_dot(n: nat)
    ensures
        !text::decimal(n).contains('.'),
{
    text::lemma_decimal_digits(n);
}

proof fn lemma_v4_written(v: nat)
    requires
        v < 0x1_0000_0000,
    ensures
        v4_of(v4_text(v)) == Some(v),
{
    let (a, b, c, d) = (v / 16777216, v / 65536 % 256, v / 256 % 256, v % 256);
    let p = seq![text::decimal(a), text::decimal(b), text::decimal(c), text::decimal(d)];
    lemma_no_dot(a);
    lemma_no_dot(b);
    lemma_no_dot(c);
    lemma_no_dot(d);
    lemma_four_joined(p);
    text::law_joined_pieces_are_found_again(p, '.');
    law_octet_is_a_small_number(p[0], a);
    law_octet_is_a_small_number(p[1], b);
    law_octet_is_a_small_number(p[2], c);
    law_octet_is_a_small_number(p[3], d);
    assert(quad(a, b, c, d) == v);
}

/// What is read as an IPv4 address is just what an IPv4 address is written as.
pub proof fn law_v4_is_read_as_written(s: Seq<char>, v: nat)
    ensures
        v4_of(s) == Some(v) <==> v < 0x1_0000_0000 && s == v4_text(v),
{
    if v4_of(s) == Some(v) {
        lemma_v4_read(s, v);
    }
    if v < 0x1_0000_0000 && s == v4_text(v) {
        lemma_v4_written(v);
    }
}

/// A group of an IPv6 address has one to four digits in base sixteen, small or capital.
pub proof fn law_group_has_up_to_four_digits(s: Seq<char>)
    ensures
        hex_group(s) is Some <==> 1 <= s.len() <= 4 && forall|i: int|
            0 <= i < s.len() ==> {
                ||| '0' <= #[trigger] s[i] && s[i] <= '9'
                ||| 'a' <= s[i] && s[i] <= 'f'
                ||| 'A' <= s[i] && s[i] <= 'F'
            },
{
    if all_hex(s) {
        assert forall|i: int| 0 <= i < s.len() implies {
            ||| '0' <= #[trigger] s[i] && s[i] <= '9'
            ||| 'a' <= s[i] && s[i] <= 'f'
            ||| 'A' <= s[i] && s[i] <= 'F'
        } by {
            assert(text::hex_value(s[i]) is Some);
        }
    }
}

proof fn lemma_hex_read_back(n: nat)
    ensures
        all_hex(hex(n)),
        hex_number(hex(n)) == n,
        hex(n).len() >= 1,
        forall|i: int| 0 <= i < hex(n).len() ==> #[trigger] hex(n)[i] != ':' && hex(n)[i] != '.',
    decreases n,
{
    let s = hex(n);
    if n < 16 {
        assert(s.drop_last() =~= Seq::<char>::empty());
        assert(hex_number(s.drop_last()) == 0);
    } else {
        lemma_hex_read_back(n / 16);
        let front = hex(n / 16);
        assert(s.drop_last() =~= front);
        assert forall|i: int| 0 <= i < s.len() implies text::hex_value(#[trigger] s[i]) is Some
            && s[i] != ':' && s[i] != '.' by {
            if i < s.len() - 1 {
                assert(s[i] == front[i]);
            }
        }
    }
}

/// A group is read as it is written.
pub proof fn law_group_is_read_back(n: nat)
    requires
        n < 65536,
    ensures
        hex_group(hex(n)) == Some(n),
{
    lemma_hex_read_back(n);
    reveal_with_fuel(hex, 5);
}

/// The groups that pieces stand for are those of the pieces, in their order.
pub proof fn law_groups_stand_in_order(pieces: Seq<Seq<char>>, g: Seq<nat>, quad_allowed: bool)
    requires
        g.len() == pieces.len(),
        forall|i: int| 0 <= i < g.len() ==> hex_group(#[trigger] pieces[i]) == Some(g[i]),
    ensures
        groups_of(pieces, quad_allowed) == Some(g),
    decreases pieces.len(),
{
    if pieces.len() == 0 {
        assert(g =~= Seq::<nat>::empty());
    } else {
        let front = pieces.drop_last();
        assert forall|i: int| 0 <= i < front.len() implies hex_group(#[trigger] front[i]) == Some(
            g.drop_last()[i],
        ) by {
            assert(front[i] == pieces[i]);
        }
        law_groups_stand_in_order(front, g.drop_last(), false);
        assert(hex_group(pieces[pieces.len() - 1]) == Some(g[g.len() - 1]));
        assert(g.drop_last().push(g.last()) =~= g);
    }
}

/// A piece with a dotted address stands for two groups, and may only come last.
pub proof fn law_dotted_end_is_two_groups(
    pieces: Seq<Seq<char>>,
    g: Seq<nat>,
    last: Seq<char>,
    v: nat,
)
    requires
        g.len() == pieces.len(),
        forall|i: int| 0 <= i < g.len() ==> hex_group(#[trigger] pieces[i]) == Some(g[i]),
        v4_of(last) == Some(v),
    ensures
        groups_of(pieces.push(last), true) == Some(g.push(v / 65536).push(v % 65536)),
        groups_of(pieces.push(last), false) is None,
{
    law_groups_stand_in_order(pieces, g, false);
    assert(pieces.push(last).drop_last() =~= pieces);
    law_v4_is_read_as_written(last, v);
    reveal_strlit(".");
    if hex_group(last) is Some {
        let k = text::decimal(v / 16777216).len() as int;
        assert(last[k] == '.');
        assert(text::hex_value(last[k]) is Some);
    }
}

/// Neither two colons in a row, nor one at the start or at the end.
spec fn is_plain(s: Seq<char>) -> bool {
    &&& forall|i: int| 0 <= i < s.len() - 1 ==> !(#[trigger] s[i] == ':' && s[i + 1] == ':')
    &&& s.len() > 0 ==> s[0] != ':' && s.last() != ':'
}

proof fn lemma_joined_is_plain(pieces: Seq<Seq<char>>)
    requires
        forall|i: int|
            0 <= i < pieces.len() ==> (#[trigger] pieces[i]).len() > 0 && !pieces[i].contains(':'),
    ensures
        is_plain(text::rejoined(pieces, ':')),
        pieces.len() > 0 ==> text::rejoined(pieces, ':').len() > 0,
    decreases pieces.len(),
{
    if pieces.len() == 1 {
        let s = pieces[0];
        assert forall|i: int| 0 <= i < s.len() implies #[trigger] s[i] != ':' by {
            assert(s.contains(s[i]));
        }
    } else if pieces.len() > 1 {
        let front = pieces.drop_last();
        assert forall|i: int| 0 <= i < front.len() implies (#[trigger] front[i]).len() > 0
            && !front[i].contains(':') by {
            assert(front[i] == pieces[i]);
        }
        lemma_joined_is_plain(front);
        let a = text::rejoined(front, ':');
        let b = pieces[pieces.len() - 1];
        assert(b.len() > 0 && !b.contains(':'));
        assert forall|i: int| 0 <= i < b.len() implies #[trigger] b[i] != ':' by {
            assert(b.contains(b[i]));
        }
        let s = text::rejoined(pieces, ':');
        assert(s == a + seq![':'] + b);
        assert forall|i: int| 0 <= i < s.len() - 1 implies !(#[trigger] s[i] == ':' && s[i + 1]
            == ':') by {
            if i < a.len() - 1 {
                assert(s[i] == a[i] && s[i + 1] == a[i + 1]);
            } else if i == a.len() - 1 {
                assert(s[i] == a.last());
            } else {
                assert(s[i + 1] == b[i - a.len()]);
            }
        }
    }
}

proof fn lemma_double_colon_at(s: Seq<char>, from: int, at: int)
    requires
        0 <= from <= at,
        at + 1 < s.len(),
        s[at] == ':' && s[at + 1] == ':',
        forall|i: int| from <= i < at ==> !(#[trigger] s[i] == ':' && s[i + 1] == ':'),
    ensures
        double_colon(s, from) == Some(at),
    decreases at - from,
{
    if from < at {
        assert(!(s[from] == ':' && s[from + 1] == ':'));
        lemma_double_colon_at(s, from + 1, at);
    }
}

proof fn lemma_no_double_colon(s: Seq<char>, from: int)
    requires
        0 <= from,
        forall|i: int| from <= i < s.len() - 1 ==> !(#[trigger] s[i] == ':' && s[i + 1] == ':'),
    ensures
        double_colon(s, from) is None,
    decreases s.len() - from,
{
    if from + 1 < s.len() {
        assert(!(s[from] == ':' && s[from + 1] == ':'));
        lemma_no_double_colon(s, from + 1);
    }
}

proof fn lemma_hex_piece(s: Seq<char>)
    requires
        hex_group(s) is Some,
    ensures
        s.len() > 0,
        !s.contains(':'),
{
    if s.contains(':') {
        let i = s.index_of(':');
        assert(text::hex_value(s[i]) is Some);
    }
}

proof fn lemma_colon_groups(pieces: Seq<Seq<char>>, g: Seq<nat>, quad_allowed: bool)
    requires
        g.len() == pieces.len(),
        forall|i: int| 0 <= i < g.len() ==> hex_group(#[trigger] pieces[i]) == Some(g[i]),
    ensures
        colon_groups(text::rejoined(pieces, ':'), quad_allowed) == Some(g),
        is_plain(text::rejoined(pieces, ':')),
{
    assert forall|i: int| 0 <= i < pieces.len() implies (#[trigger] pieces[i]).len() > 0
        && !pieces[i].contains(':') by {
        assert(hex_group(pieces[i]) == Some(g[i]));
        lemma_hex_piece(pieces[i]);
    }
    lemma_joined_is_plain(pieces);
    if pieces.len() > 0 {
        text::law_joined_pieces_are_found_again(pieces, ':');
        law_groups_stand_in_order(pieces, g, quad_allowed);
    } else {
        assert(g =~= Seq::<nat>::empty());
    }
}

/// Eight groups with colons between them are the address that the groups spell.
pub proof fn law_eight_groups_are_an_address(pieces: Seq<Seq<char>>, g: Seq<nat>)
    requires
        g.len() == pieces.len(),
        forall|i: int| 0 <= i < g.len() ==> hex_group(#[trigger] pieces[i]) == Some(g[i]),
    ensures
        g.len() == 8 ==> v6_of(text::rejoined(pieces, ':')) == Some(groups_value(g)),
        g.len() != 8 ==> v6_of(text::rejoined(pieces, ':')) is None,
{
    lemma_colon_groups(pieces, g, true);
    lemma_no_double_colon(text::rejoined(pieces, ':'), 0);
}

/// A double colon, wherever it stands, stands for the zeros that are missing.
pub proof fn law_double_colon_stands_for_zeros(
    head: Seq<Seq<char>>,
    h: Seq<nat>,
    tail: Seq<Seq<char>>,
    t: Seq<nat>,
)
    requires
        h.len() == head.len(),
        forall|i: int| 0 <= i < h.len() ==> hex_group(#[trigger] head[i]) == Some(h[i]),
        t.len() == tail.len(),
        forall|i: int| 0 <= i < t.len() ==> hex_group(#[trigger] tail[i]) == Some(t[i]),
    ensures
        ({
            let s = text::rejoined(head, ':') + "::"@ + text::rejoined(tail, ':');
            &&& h.len() + t.len() <= 7 ==> v6_of(s) == Some(
                groups_value(h + Seq::new((8 - h.len() - t.len()) as nat, |i: int| 0nat) + t),
            )
            &&& h.len() + t.len() > 7 ==> v6_of(s) is None
        }),
{
    reveal_strlit("::");
    let a = text::rejoined(head, ':');
    let b = text::rejoined(tail, ':');
    let s = a + "::"@ + b;
    lemma_colon_groups(head, h, false);
    lemma_colon_groups(tail, t, true);
    assert forall|i: int| 0 <= i < a.len() implies !(#[trigger] s[i] == ':' && s[i + 1] == ':') by {
        if i < a.len() - 1 {
            assert(s[i] == a[i] && s[i + 1] == a[i + 1]);
        } else {
            assert(s[i] == a.last());
        }
    }
    lemma_double_colon_at(s, 0, a.len() as int);
    assert(s.take(a.len() as int) =~= a);
    assert(s.skip(a.len() as int + 2) =~= b);
}

proof fn lemma_value_groups(v: nat, n: nat)
    requires
        v < vstd::arithmetic::power::pow(65536, n),
    ensures
        value_groups(v, n).len() == n,
        groups_value(value_groups(v, n)) == v,
        forall|i: int| 0 <= i < n ==> #[trigger] value_groups(v, n)[i] < 65536,
    decreases n,
{
    reveal(vstd::arithmetic::power::pow);
    if n > 0 {
        let m = (n - 1) as nat;
        assert(vstd::arithmetic::power::pow(65536, n) == 65536 * vstd::arithmetic::power::pow(
            65536,
            m,
        ));
        lemma_value_groups(v / 65536, m);
        let g = value_groups(v, n);
        let front = value_groups(v / 65536, m);
        assert(g.drop_last() =~= front);
        assert forall|i: int| 0 <= i < n implies #[trigger] g[i] < 65536 by {
            if i < n - 1 {
                assert(g[i] == front[i]);
            }
        }
    }
}

proof fn lemma_zero_run(g: Seq<nat>, i: int)
    requires
        0 <= i <= g.len(),
    ensures
        i + zero_run(g, i) <= g.len(),
        forall|k: int| i <= k < i + zero_run(g, i) ==> #[trigger] g[k] == 0,
    decreases g.len() - i,
{
    if i < g.len() && g[i] == 0 {
        lemma_zero_run(g, i + 1);
    }
}

proof fn lemma_best_run_bounds(g: Seq<nat>, n: nat)
    ensures
        0 <= best_run(g, n),
        best_run(g, n) < n || n == 0,
    decreases n,
{
    if n > 1 {
        lemma_best_run_bounds(g, (n - 1) as nat);
    }
}

spec fn hexes(g: Seq<nat>) -> Seq<Seq<char>> {
    g.map_values(|n: nat| hex(n))
}

proof fn lemma_joined_hexes(g: Seq<nat>)
    ensures
        joined(g) == text::rejoined(hexes(g), ':'),
    decreases g.len(),
{
    reveal_strlit(":");
    assert(":"@ =~= seq![':']);
    if g.len() > 1 {
        lemma_joined_hexes(g.drop_last());
        assert(hexes(g).drop_last() =~= hexes(g.drop_last()));
    }
}

proof fn lemma_hexes_read_back(g: Seq<nat>)
    requires
        forall|i: int| 0 <= i < g.len() ==> #[trigger] g[i] < 65536,
    ensures
        hexes(g).len() == g.len(),
        forall|i: int| 0 <= i < g.len() ==> hex_group(#[trigger] hexes(g)[i]) == Some(g[i]),
{
    assert forall|i: int| 0 <= i < g.len() implies hex_group(#[trigger] hexes(g)[i]) == Some(
        g[i],
    ) by {
        assert(g[i] < 65536);
        law_group_is_read_back(g[i]);
    }
}

proof fn lemma_mapped_read_back(w: nat)
    requires
        w < 0x1_0000_0000,
    ensures
        v6_of("::ffff:"@ + v4_text(w)) == Some(
            groups_value(
                seq![0nat, 0nat, 0nat, 0nat, 0nat, 65535nat, w / 65536, w % 65536],
            ),
        ),
{
    reveal_strlit("::ffff:");
    let t = v4_text(w);
    let s = "::ffff:"@ + t;
    let ffff = seq!['f', 'f', 'f', 'f'];
    law_v4_is_read_as_written(t, w);
    lemma_double_colon_at(s, 0, 0);
    assert(s.take(0) =~= Seq::<char>::empty());
    lemma_v4_text_is_plain(w);
    let p = seq![ffff, t];
    assert(text::rejoined(p.drop_last(), ':') == ffff) by {
        assert(p.drop_last()[0] == ffff);
    }
    assert(s.skip(2) =~= text::rejoined(p, ':'));
    assert(!t.contains(':'));
    assert(!ffff.contains(':'));
    text::law_joined_pieces_are_found_again(p, ':');
    assert(hex_group(ffff) == Some(65535nat)) by {
        reveal_with_fuel(hex_number, 5);
        assert(all_hex(ffff));
    }
    let one = seq![ffff];
    let g = seq![65535nat];
    law_dotted_end_is_two_groups(one, g, t, w);
    assert(one.push(t) =~= p);
    let tail = g.push(w / 65536).push(w % 65536);
    assert(colon_groups(s.skip(2), true) == Some(tail));
    assert(colon_groups(s.take(0), false) == Some(Seq::<nat>::empty()));
    assert(Seq::<nat>::empty() + zeros(5) + tail =~= seq![
        0nat,
        0nat,
        0nat,
        0nat,
        0nat,
        65535nat,
        w / 65536,
        w % 65536,
    ]);
}

proof fn lemma_v4_text_is_plain(v: nat)
    ensures
        !v4_text(v).contains(':'),
{
    reveal_strlit(".");
    let (a, b, c, d) = (v / 16777216, v / 65536 % 256, v / 256 % 256, v % 256);
    text::lemma_decimal_digits(a);
    text::lemma_decimal_digits(b);
    text::lemma_decimal_digits(c);
    text::lemma_decimal_digits(d);
    let dot = "."@;
    let s1 = text::decimal(a) + dot;
    let s2 = s1 + text::decimal(b) + dot;
    let s3 = s2 + text::decimal(c) + dot;
    assert(forall|i: int| 0 <= i < s1.len() ==> #[trigger] s1[i] != ':');
    assert(forall|i: int| 0 <= i < s2.len() ==> #[trigger] s2[i] != ':');
    assert(forall|i: int| 0 <= i < s3.len() ==> #[trigger] s3[i] != ':');
    let s = s3 + text::decimal(d);
    assert(s == v4_text(v));
    assert(forall|i: int| 0 <= i < s.len() ==> #[trigger] s[i] != ':');
}

proof fn lemma_v6_read_back(v: nat)
    requires
        v < vstd::arithmetic::power::pow(65536, 8),
    ensures
        v6_of(v6_text(v)) == Some(v),
        v6_text(v).contains(':'),
{
    let g = value_groups(v, 8);
    let s = v6_text(v);
    lemma_value_groups(v, 8);
    reveal_strlit("::");
    reveal_strlit(":");
    reveal_strlit("::ffff:");
    if g.take(6) == seq![0nat, 0nat, 0nat, 0nat, 0nat, 65535nat] {
        let w = g[6] * 65536 + g[7];
        assert(g[6] < 65536 && g[7] < 65536);
        lemma_mapped_read_back(w);
        assert(w / 65536 == g[6] && w % 65536 == g[7]);
        assert(g =~= g.take(6).push(g[6]).push(g[7]));
        assert(g =~= seq![0nat, 0nat, 0nat, 0nat, 0nat, 65535nat, g[6], g[7]]);
        assert(s[0] == ':');
    } else {
        let b = best_run(g, 8);
        let l = zero_run(g, b);
        lemma_best_run_bounds(g, 8);
        lemma_zero_run(g, b);
        if l > 1 {
            let h = g.take(b);
            let t = g.skip(b + l);
            assert forall|i: int| 0 <= i < h.len() implies #[trigger] h[i] < 65536 by {
                assert(h[i] == g[i]);
            }
            assert forall|i: int| 0 <= i < t.len() implies #[trigger] t[i] < 65536 by {
                assert(t[i] == g[i + b + l]);
            }
            lemma_joined_hexes(h);
            lemma_joined_hexes(t);
            lemma_hexes_read_back(h);
            lemma_hexes_read_back(t);
            law_double_colon_stands_for_zeros(hexes(h), h, hexes(t), t);
            assert(h + Seq::new((8 - h.len() - t.len()) as nat, |i: int| 0nat) + t =~= g);
            assert(s[joined(h).len() as int] == ':');
        } else {
            lemma_joined_hexes(g);
            lemma_hexes_read_back(g);
            law_eight_groups_are_an_address(hexes(g), g);
            assert(s == joined(g.drop_last()) + ":"@ + hex(g.last()));
            assert(s[joined(g.drop_last()).len() as int] == ':');
        }
    }
}

/// An address is read as it is written, of whichever family it is.
pub proof fn law_address_is_read_back(ip: IpAddr)
    ensures
        ip_of(ip.text()) == Some(ip),
{
    match ip {
        IpAddr::V4(v) => {
            law_v4_is_read_as_written(ip.text(), v as nat);
        },
        IpAddr::V6(v) => {
            let n = v as nat;
            assert(n < vstd::arithmetic::power::pow(65536, 8)) by {
                lemma_pow_small();
                reveal(vstd::arithmetic::power::pow);
                assert(vstd::arithmetic::power::pow(65536, 8) == 65536
                    * vstd::arithmetic::power::pow(65536, 7));
            }
            lemma_v6_read_back(n);
            if v4_of(ip.text()) is Some {
                let w = v4_of(ip.text())->0;
                law_v4_is_read_as_written(ip.text(), w);
                lemma_v4_text_is_plain(w);
            }
        },
    }
}

/// Different addresses are written differently.
pub proof fn law_text_tells_the_address(a: IpAddr, b: IpAddr)
    requires
        a.text() == b.text(),
    ensures
        a == b,
{
    law_address_is_read_back(a);
    law_address_is_read_back(b);
}

/// A text with a colon is an IPv6 address or none, and one without is an IPv4 address or
/// none.
pub proof fn law_colon_tells_the_family(s: Seq<char>)
    requires
        ip_of(s) is Some,
    ensures
        ip_of(s)->0 is V4 <==> !s.contains(':'),
{
    if v4_of(s) is Some {
        let w = v4_of(s)->0;
        law_v4_is_read_as_written(s, w);
        lemma_v4_text_is_plain(w);
    } else if !s.contains(':') {
        lemma_no_double_colon_without(s);
        text::lemma_split_without(s, ':');
        if s.len() > 0 {
            reveal_with_fuel(groups_of, 2);
        }
    }
}

proof fn lemma_no_double_colon_without(s: Seq<char>)
    requires
        !s.contains(':'),
    ensures
        double_colon(s, 0) is None,
{
    assert forall|i: int| 0 <= i < s.len() - 1 implies !(#[trigger] s[i] == ':' && s[i + 1]
        == ':') by {
        assert(s.contains(s[i]));
    }
    lemma_no_double_colon(s, 0);
}

/// An IPv4 address is written as its four bytes, the highest first, with dots between them.
pub proof fn law_v4_shows_its_bytes(a: nat, b: nat, c: nat, d: nat)
    requires
        a <= 255 && b <= 255 && c <= 255 && d <= 255,
    ensures
        v4_text(a * 0x100_0000 + b * 0x1_0000 + c * 0x100 + d) == text::decimal(a) + "."@
            + text::decimal(b) + "."@ + text::decimal(c) + "."@ + text::decimal(d),
{
    lemma_quad_parts(a, b, c, d);
}

/// What is left out of an IPv6 address is the longest run of zeros, the first of these.
pub proof fn law_longest_run_is_left_out(g: Seq<nat>, n: nat, k: int)
    requires
        0 <= k < n,
    ensures
        zero_run(g, k) <= zero_run(g, best_run(g, n)),
        k < best_run(g, n) ==> zero_run(g, k) < zero_run(g, best_run(g, n)),
    decreases n,
{
    if n > 1 && k < n - 1 {
        law_longest_run_is_left_out(g, (n - 1) as nat, k);
    }
    if n > 1 {
        lemma_best_run_bounds(g, (n - 1) as nat);
        if k == n - 1 {
            law_longest_run_is_left_out(g, (n - 1) as nat, 0);
        }
    }
}

} // verus!
