//! Unsigned numbers as decimal text, in both directions.

use vstd::prelude::*;
use vstd::std_specs::iter::IteratorSpec;
use vstd::string::StringExecFns;

verus! {

/// Why a text is not a number.
#[derive(Debug, Clone, Copy, PartialEq, Eq, Structural)]
pub enum NumberFault {
    /// The text is empty.
    Empty,
    /// A character is not a decimal digit (a sign alone counts as one).
    InvalidDigit,
    /// The number does not fit in 64 bits.
    TooLarge,
}

/// The character of a decimal digit.
pub open spec fn digit_char(d: nat) -> char {
    if d == 0 {
        '0'
    } else if d == 1 {
        '1'
    } else if d == 2 {
        '2'
    } else if d == 3 {
        '3'
    } else if d == 4 {
        '4'
    } else if d == 5 {
        '5'
    } else if d == 6 {
        '6'
    } else if d == 7 {
        '7'
    } else if d == 8 {
        '8'
    } else {
        '9'
    }
}

/// The value of a decimal digit; `None` for any other character.
pub open spec fn digit_value(c: char) -> Option<nat> {
    if c == '0' {
        Some(0)
    } else if c == '1' {
        Some(1)
    } else if c == '2' {
        Some(2)
    } else if c == '3' {
        Some(3)
    } else if c == '4' {
        Some(4)
    } else if c == '5' {
        Some(5)
    } else if c == '6' {
        Some(6)
    } else if c == '7' {
        Some(7)
    } else if c == '8' {
        Some(8)
    } else if c == '9' {
        Some(9)
    } else {
        None
    }
}

/// The number in decimal, without sign or leading zeros.
pub open spec fn decimal_of(n: nat) -> Seq<char>
    decreases n,
{
    if n < 10 {
        seq![digit_char(n)]
    } else {
        decimal_of(n / 10).push(digit_char(n % 10))
    }
}

/// Reads the digits of `s` from place `i` on, left to right, into the
/// number `acc` read so far. The first character that is no digit, or
/// the first digit with which the number outgrows 64 bits, ends it.
pub open spec fn scan_digits(s: Seq<char>, i: int, acc: nat) -> Result<u64, NumberFault>
    decreases s.len() - i,
{
    if i < 0 || i >= s.len() {
        Ok(acc as u64)
    } else {
        match digit_value(s[i]) {
            None => Err(NumberFault::InvalidDigit),
            Some(d) => if acc * 10 + d > u64::MAX {
                Err(NumberFault::TooLarge)
            } else {
                scan_digits(s, i + 1, acc * 10 + d)
            },
        }
    }
}

/// The number that a text stands for: decimal digits, at least one,
/// after at most one `+`.
pub open spec fn parse_decimal(s: Seq<char>) -> Result<u64, NumberFault> {
    if s.len() == 0 {
        Err(NumberFault::Empty)
    } else {
        let from: int = if s[0] == '+' {
            1
        } else {
            0
        };
        if from >= s.len() {
            Err(NumberFault::InvalidDigit)
        } else {
            scan_digits(s, from, 0)
        }
    }
}

/// The value of a text of digits.
pub open spec fn digits_value(s: Seq<char>) -> nat
    decreases s.len(),
{
    if s.len() == 0 {
        0
    } else {
        match digit_value(s.last()) {
            Some(d) => digits_value(s.drop_last()) * 10 + d,
            None => digits_value(s.drop_last()) * 10,
        }
    }
}

/// Every character is a decimal digit.
pub open spec fn all_digits(s: Seq<char>) -> bool {
    forall|i: int| 0 <= i < s.len() ==> digit_value(#[trigger] s[i]).is_some()
}

proof fn lemma_scan_all_digits(s: Seq<char>, i: int)
    requires
        all_digits(s),
        0 <= i <= s.len(),
        digits_value(s) <= u64::MAX,
    ensures
        digits_value(s.take(i)) <= digits_value(s),
        scan_digits(s, i, digits_value(s.take(i))) == Ok::<u64, NumberFault>(
            digits_value(s) as u64,
        ),
    decreases s.len() - i,
{
    if i == s.len() {
        assert(s.take(i) =~= s);
    } else {
        assert(s.take(i + 1).drop_last() =~= s.take(i));
        assert(s.take(i + 1).last() == s[i]);
        lemma_scan_all_digits(s, i + 1);
    }
}

proof fn lemma_decimal_digits(n: nat)
    ensures
        all_digits(decimal_of(n)),
        digits_value(decimal_of(n)) == n,
        decimal_of(n).len() >= 1,
        decimal_of(n)[0] != '+',
    decreases n,
{
    assert(forall|d: nat| d < 10 ==> digit_value(#[trigger] digit_char(d)) == Some(d));
    if n < 10 {
        assert(decimal_of(n).drop_last() =~= Seq::<char>::empty());
        assert(decimal_of(n).last() == digit_char(n));
        assert(digits_value(decimal_of(n).drop_last()) == 0);
    } else {
        lemma_decimal_digits(n / 10);
        assert(decimal_of(n).drop_last() =~= decimal_of(n / 10));
        assert(decimal_of(n).last() == digit_char(n % 10));
        assert(decimal_of(n)[0] == decimal_of(n / 10)[0]);
    }
}

/// A number written in decimal reads back as itself.
pub proof fn lemma_decimal_round_trip(n: u64)
    ensures
        parse_decimal(decimal_of(n as nat)) == Ok::<u64, NumberFault>(n),
{
    let s = decimal_of(n as nat);
    lemma_decimal_digits(n as nat);
    lemma_scan_all_digits(s, 0);
    assert(s.take(0) =~= Seq::<char>::empty());
}

/// The characters of the text, in order.
pub fn chars_of(s: &str) -> (r: Vec<char>)
    ensures
        r@ == s@,
{
    broadcast use vstd::string::group_string_axioms;

    let mut rest = s.chars();
    let mut seen: Vec<char> = Vec::new();
    loop
        invariant
            seen@ + rest.remaining() == s@,
            rest.decrease() is Some,
        ensures
            seen@ == s@,
        decreases rest.decrease()->0,
    {
        let ghost before = rest.remaining();
        match rest.next() {
            Some(c) => {
                let ghost had = seen@;
                seen.push(c);
                proof {
                    assert(before =~= seq![c] + rest.remaining());
                    assert(seen@ + rest.remaining() =~= had + before);
                }
            },
            None => {
                proof {
                    assert(seen@ + before =~= seen@);
                }
                break ;
            },
        }
    }
    seen
}

/// The value of a decimal digit.
fn digit_of(c: char) -> (r: Option<u64>)
    ensures
        match r {
            Some(d) => digit_value(c) == Some(d as nat) && d < 10,
            None => digit_value(c).is_none(),
        },
{
    if c == '0' {
        Some(0)
    } else if c == '1' {
        Some(1)
    } else if c == '2' {
        Some(2)
    } else if c == '3' {
        Some(3)
    } else if c == '4' {
        Some(4)
    } else if c == '5' {
        Some(5)
    } else if c == '6' {
        Some(6)
    } else if c == '7' {
        Some(7)
    } else if c == '8' {
        Some(8)
    } else if c == '9' {
        Some(9)
    } else {
        None
    }
}

/// Reads an unsigned number from decimal text.
pub fn parse_u64(text: &str) -> (r: Result<u64, NumberFault>)
    ensures
        r == parse_decimal(text@),
{
    let chars = chars_of(text);
    if chars.len() == 0 {
        return Err(NumberFault::Empty);
    }
    let from: usize = if chars[0] == '+' {
        1
    } else {
        0
    };
    if from >= chars.len() {
        return Err(NumberFault::InvalidDigit);
    }
    let mut acc: u64 = 0;
    let mut i: usize = from;
    while i < chars.len()
        invariant
            from <= i <= chars.len(),
            chars@ == text@,
            parse_decimal(text@) == scan_digits(chars@, from as int, 0),
            scan_digits(chars@, i as int, acc as nat) == scan_digits(chars@, from as int, 0),
        decreases chars.len() - i,
    {
        match digit_of(chars[i]) {
            None => {
                return Err(NumberFault::InvalidDigit);
            },
            Some(d) => {
                if acc > (u64::MAX - d) / 10 {
                    return Err(NumberFault::TooLarge);
                }
                acc = acc * 10 + d;
            },
        }
        i += 1;
    }
    Ok(acc)
}

/// The text of a decimal digit.
pub(crate) fn digit_text(d: u64) -> (r: &'static str)
    requires
        d < 10,
    ensures
        r@ == seq![digit_char(d as nat)],
{
    proof {
        reveal_strlit("0");
        reveal_strlit("1");
        reveal_strlit("2");
        reveal_strlit("3");
        reveal_strlit("4");
        reveal_strlit("5");
        reveal_strlit("6");
        reveal_strlit("7");
        reveal_strlit("8");
        reveal_strlit("9");
    }
    let r = if d == 0 {
        "0"
    } else if d == 1 {
        "1"
    } else if d == 2 {
        "2"
    } else if d == 3 {
        "3"
    } else if d == 4 {
        "4"
    } else if d == 5 {
        "5"
    } else if d == 6 {
        "6"
    } else if d == 7 {
        "7"
    } else if d == 8 {
        "8"
    } else {
        "9"
    };
    assert(r@ =~= seq![digit_char(d as nat)]);
    r
}

/// Appends the number in decimal to `out`.
pub fn push_decimal(out: &mut String, n: u64)
    ensures
        final(out)@ == old(out)@ + decimal_of(n as nat),
    decreases n,
{
    if n >= 10 {
        push_decimal(out, n / 10);
    }
    let ghost before = out@;
    out.append(digit_text(n % 10));
    proof {
        if n >= 10 {
            assert(out@ =~= old(out)@ + decimal_of(n as nat));
        } else {
            assert(out@ =~= old(out)@ + decimal_of(n as nat));
        }
    }
}

/// The number in decimal.
pub fn u64_to_decimal(n: u64) -> (r: String)
    ensures
        r@ == decimal_of(n as nat),
{
    let mut out = String::new();
    push_decimal(&mut out, n);
    proof {
        assert(out@ =~= decimal_of(n as nat));
    }
    out
}

} // verus!
