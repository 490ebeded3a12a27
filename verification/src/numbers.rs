//! Numerals, and what can be wrong with them.
use vstd::prelude::*;

use crate::text;

verus! {

/// What is wrong with a numeral.
#[derive(Debug, Clone, Copy, PartialEq, Eq, Structural)]
pub enum NumberProblem {
    /// There is nothing to read.
    Empty,
    /// A character is no digit.
    InvalidDigit,
    /// The number is too large.
    TooLarge,
}

impl NumberProblem {
    /// What is wrong, in words.
    pub open spec fn words(self) -> Seq<char> {
        match self {
            NumberProblem::Empty => "cannot parse integer from empty string"@,
            NumberProblem::InvalidDigit => "invalid digit found in string"@,
            NumberProblem::TooLarge => "number too large to fit in target type"@,
        }
    }

    /// What is wrong, in words.
    pub fn message(&self) -> (r: &'static str)
        ensures
            r@ == self.words(),
    {
        match self {
            NumberProblem::Empty => "cannot parse integer from empty string",
            NumberProblem::InvalidDigit => "invalid digit found in string",
            NumberProblem::TooLarge => "number too large to fit in target type",
        }
    }
}

/// The number that digits make behind a number already read, as long as it does
/// not exceed a limit.
pub open spec fn scanned(s: Seq<char>, value: nat, max: nat) -> Result<nat, NumberProblem>
    decreases s.len(),
{
    if s.len() == 0 {
        Ok(value)
    } else if !('0' <= s[0] && s[0] <= '9') {
        Err(NumberProblem::InvalidDigit)
    } else {
        let next = value * 10 + (s[0] as nat - 48) as nat;
        if next > max {
            Err(NumberProblem::TooLarge)
        } else {
            scanned(s.skip(1), next, max)
        }
    }
}

/// The number that a numeral stands for: digits, behind at most one plus sign.
pub open spec fn numeral(s: Seq<char>, max: nat) -> Result<nat, NumberProblem> {
    if s.len() == 0 {
        Err(NumberProblem::Empty)
    } else if s[0] == '+' {
        if s.len() == 1 {
            Err(NumberProblem::InvalidDigit)
        } else {
            scanned(s.skip(1), 0, max)
        }
    } else {
        scanned(s, 0, max)
    }
}

/// A number that was read, without its size.
pub open spec fn as_nat(r: Result<u64, NumberProblem>) -> Result<nat, NumberProblem> {
    match r {
        Ok(v) => Ok(v as nat),
        Err(e) => Err(e),
    }
}

/// Reads a numeral, up to a limit.
pub fn parse_numeral(s: &[char], max: u64) -> (r: Result<u64, NumberProblem>)
    ensures
        as_nat(r) == numeral(s@, max as nat),
{
    let n: usize = s.len();
    if n == 0 {
        return Err(NumberProblem::Empty);
    }
    let mut i: usize = 0;
    if s[0] == '+' {
        if n == 1 {
            return Err(NumberProblem::InvalidDigit);
        }
        i = 1;
    }
    let mut value: u64 = 0;
    assert(s@.skip(0) =~= s@);
    while i < n
        invariant
            i <= n,
            n == s@.len(),
            numeral(s@, max as nat) == scanned(s@.skip(i as int), value as nat, max as nat),
        decreases n - i,
    {
        let c = s[i];
        let ghost rest = s@.skip(i as int);
        assert(rest[0] == c);
        assert(rest.skip(1) =~= s@.skip(i + 1));
        if c < '0' || c > '9' {
            return Err(NumberProblem::InvalidDigit);
        }
        let digit: u64 = (c as u32 - 48) as u64;
        if digit > max || value > (max - digit) / 10 {
            assert(value * 10 + digit > max);
            return Err(NumberProblem::TooLarge);
        }
        value = value * 10 + digit;
        i = i + 1;
    }
    Ok(value)
}

proof fn lemma_scanned_push(s: Seq<char>, c: char, value: nat, max: nat)
    ensures
        scanned(s.push(c), value, max) == match scanned(s, value, max) {
            Ok(v) => scanned(seq![c], v, max),
            Err(e) => Err(e),
        },
    decreases s.len(),
{
    let all = s.push(c);
    if s.len() == 0 {
        assert(all =~= seq![c]);
    } else {
        assert(all[0] == s[0]);
        assert(all.skip(1) =~= s.skip(1).push(c));
        if '0' <= s[0] && s[0] <= '9' {
            let next = value * 10 + (s[0] as nat - 48) as nat;
            if next <= max {
                lemma_scanned_push(s.skip(1), c, next, max);
            }
        }
    }
}

/// What is read does not exceed the limit.
pub proof fn lemma_scanned_is_bounded(s: Seq<char>, value: nat, max: nat)
    requires
        value <= max,
    ensures
        scanned(s, value, max) matches Ok(n) ==> n <= max,
    decreases s.len(),
{
    if s.len() > 0 && '0' <= s[0] && s[0] <= '9' {
        let next = value * 10 + (s[0] as nat - 48) as nat;
        if next <= max {
            lemma_scanned_is_bounded(s.skip(1), next, max);
        }
    }
}

/// Decimal digits stand for the number that they were written for.
pub proof fn law_decimal_is_read_back(n: nat, max: nat)
    requires
        n <= max,
    ensures
        numeral(text::decimal(n), max) == Ok::<nat, NumberProblem>(n),
{
    lemma_decimal_scanned(n, max);
}

proof fn lemma_decimal_scanned(n: nat, max: nat)
    requires
        n <= max,
    ensures
        scanned(text::decimal(n), 0, max) == Ok::<nat, NumberProblem>(n),
        text::decimal(n).len() > 0,
        '0' <= text::decimal(n)[0] <= '9',
    decreases n,
{
    reveal_with_fuel(scanned, 2);
    let s = text::decimal(n);
    if n < 10 {
        assert(s.skip(1) =~= Seq::<char>::empty());
    } else {
        let d = text::digit_char(n % 10);
        lemma_decimal_scanned(n / 10, max);
        lemma_scanned_push(text::decimal(n / 10), d, 0, max);
        assert(seq![d].skip(1) =~= Seq::<char>::empty());
        assert(scanned(seq![d], n / 10, max) == Ok::<nat, NumberProblem>(n));
    }
}

/// A plus sign before the digits changes nothing, and a zero before them neither.
pub proof fn law_sign_and_zero_change_nothing(s: Seq<char>, max: nat)
    requires
        s.len() > 0,
        s[0] != '+',
    ensures
        numeral(seq!['+'] + s, max) == numeral(s, max),
        numeral(seq!['0'] + s, max) == numeral(s, max),
{
    assert((seq!['+'] + s).skip(1) =~= s);
    assert((seq!['0'] + s).skip(1) =~= s);
    assert((seq!['0'] + s)[0] == '0');
}

/// A number is read from digits only, and is no larger than asked for.
pub proof fn law_only_digits_are_a_number(s: Seq<char>, max: nat, i: int)
    requires
        numeral(s, max) is Ok,
        0 <= i < s.len(),
    ensures
        numeral(s, max)->Ok_0 <= max,
        '0' <= s[i] <= '9' || (i == 0 && s[i] == '+' && s.len() > 1),
{
    if s[0] == '+' {
        lemma_scanned_digits(s.skip(1), 0, max);
        if i > 0 {
            assert(s.skip(1)[i - 1] == s[i]);
        }
    } else {
        lemma_scanned_digits(s, 0, max);
    }
}

proof fn lemma_scanned_digits(s: Seq<char>, value: nat, max: nat)
    requires
        scanned(s, value, max) is Ok,
        value <= max,
    ensures
        scanned(s, value, max)->Ok_0 <= max,
        forall|i: int| 0 <= i < s.len() ==> '0' <= #[trigger] s[i] <= '9',
    decreases s.len(),
{
    if s.len() > 0 {
        let next = value * 10 + (s[0] as nat - 48) as nat;
        lemma_scanned_digits(s.skip(1), next as nat, max);
        assert forall|i: int| 0 <= i < s.len() implies '0' <= #[trigger] s[i] <= '9' by {
            if i > 0 {
                assert(s.skip(1)[i - 1] == s[i]);
            }
        }
    }
}

} // verus!
