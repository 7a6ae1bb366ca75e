//! Numbers in octal notation.

use vstd::prelude::*;
use crate::error::ParseOctalError;
use crate::text::{chars_of, digit};

verus! {

/// An octal digit.
pub open spec fn octal_digit(c: char) -> bool {
    '0' <= c <= '7'
}

/// The value of an octal digit.
pub open spec fn octal_digit_value(c: char) -> int {
    c as int - '0' as int
}

/// Reads digits behind those that make `value`, up to the first that is none or does not
/// fit.
pub open spec fn read_digits(s: Seq<char>, value: int) -> Result<u32, ParseOctalError>
    decreases s.len(),
{
    if s.len() == 0 {
        Ok(value as u32)
    } else if !octal_digit(s[0]) {
        Err(ParseOctalError::InvalidDigit)
    } else if 8 * value + octal_digit_value(s[0]) > u32::MAX {
        Err(ParseOctalError::PosOverflow)
    } else {
        read_digits(s.skip(1), 8 * value + octal_digit_value(s[0]))
    }
}

/// The digits of a number that may have a plus sign in front.
pub open spec fn unsigned_digits(s: Seq<char>) -> Seq<char> {
    if s.len() > 1 && s[0] == '+' {
        s.skip(1)
    } else {
        s
    }
}

/// Reads an octal number, which may have a plus sign in front.
pub open spec fn read_octal(s: Seq<char>) -> Result<u32, ParseOctalError> {
    if s.len() == 0 {
        Err(ParseOctalError::Empty)
    } else {
        read_digits(unsigned_digits(s), 0)
    }
}

/// `n` in octal notation.
pub open spec fn octal(n: nat) -> Seq<char>
    decreases n,
{
    if n < 8 {
        seq![digit(n)]
    } else {
        octal(n / 8).push(digit(n % 8))
    }
}

/// Reading digits behind one another is reading them in turn.
proof fn lemma_read_digits_push(s: Seq<char>, c: char, value: int)
    requires
        0 <= value <= u32::MAX,
        octal_digit(c),
    ensures
        read_digits(s.push(c), value) == (match read_digits(s, value) {
            Ok(v) => read_digits(seq![c], v as int),
            Err(e) => Err(e),
        }),
    decreases s.len(),
{
    if s.len() == 0 {
        assert(s.push(c) =~= seq![c]);
    } else {
        assert(s.push(c).skip(1) =~= s.skip(1).push(c));
        if octal_digit(s[0]) && 8 * value + octal_digit_value(s[0]) <= u32::MAX {
            lemma_read_digits_push(s.skip(1), c, 8 * value + octal_digit_value(s[0]));
        }
    }
}

/// The first digit of a number in octal notation is a digit.
proof fn lemma_octal_starts(n: nat)
    ensures
        octal(n).len() > 0,
        octal_digit(octal(n)[0]),
    decreases n,
{
    if n >= 8 {
        lemma_octal_starts(n / 8);
    }
}

/// A number that fits is read back from its octal notation.
pub proof fn law_octal_read_back(n: u32)
    ensures
        read_octal(octal(n as nat)) == Ok::<u32, ParseOctalError>(n),
{
    lemma_octal_starts(n as nat);
    lemma_octal_digits(n as nat);
}

proof fn lemma_octal_digits(n: nat)
    requires
        n <= u32::MAX,
    ensures
        read_digits(octal(n), 0) == Ok::<u32, ParseOctalError>(n as u32),
    decreases n,
{
    reveal_with_fuel(read_digits, 2);
    if n >= 8 {
        let c = digit(n % 8);
        lemma_octal_digits(n / 8);
        lemma_read_digits_push(octal(n / 8), c, 0);
    }
}

/// Reads an octal number, which may have a plus sign in front.
pub fn parse_octal(s: &str) -> (r: Result<u32, ParseOctalError>)
    ensures
        r == read_octal(s@),
{
    let v = chars_of(s);
    if v.len() == 0 {
        return Err(ParseOctalError::Empty);
    }
    let mut i: usize = if v.len() > 1 && v[0] == '+' {
        1
    } else {
        0
    };
    let mut value: u32 = 0;
    assert(s@.skip(0) =~= s@);
    while i < v.len()
        invariant
            v@ == s@,
            i <= v@.len(),
            read_octal(s@) == read_digits(s@.skip(i as int), value as int),
        decreases v@.len() - i,
    {
        let c = v[i];
        assert(s@.skip(i as int).skip(1) =~= s@.skip(i + 1));
        if !('0' <= c && c <= '7') {
            return Err(ParseOctalError::InvalidDigit);
        }
        let d: u32 = c as u32 - 48;
        if value > (u32::MAX - d) / 8 {
            return Err(ParseOctalError::PosOverflow);
        }
        value = value * 8 + d;
        i += 1;
    }
    assert(s@.skip(i as int) =~= Seq::empty());
    Ok(value)
}

} // verus!
