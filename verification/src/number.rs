//! Numbers written in decimal: reading one from characters, and writing one out.

use vstd::prelude::*;
use vstd::string::StringExecFns;

verus! {

/// The ten decimal digits.
pub open spec fn is_digit(c: char) -> bool {
    '0' <= c <= '9'
}

/// What the digit `c` stands for.
pub open spec fn digit_value(c: char) -> nat
    recommends
        is_digit(c),
{
    (c as u32 - '0' as u32) as nat
}

/// The digit that stands for `d`.
pub open spec fn digit_char(d: nat) -> char
    recommends
        d < 10,
{
    if d == 0 {
        '0'
    } else if d == 1 {
        '1'
    } else if d == 2 {
        '2'
    } else if d == 3 {
        '3'
    } else if d == 4 {
        '4'
    } else if d == 5 {
        '5'
    } else if d == 6 {
        '6'
    } else if d == 7 {
        '7'
    } else if d == 8 {
        '8'
    } else {
        '9'
    }
}

/// Every character of `s` is a digit.
pub open spec fn all_digits(s: Seq<char>) -> bool {
    forall|i: int| 0 <= i < s.len() ==> is_digit(#[trigger] s[i])
}

/// The number that the digits `s` write, most significant digit first. Zeros
/// may lead, and no digits at all write zero.
pub open spec fn digits_value(s: Seq<char>) -> nat
    recommends
        all_digits(s),
    decreases s.len(),
{
    if s.len() == 0 {
        0
    } else {
        digits_value(s.drop_last()) * 10 + digit_value(s.last())
    }
}

/// `s` without the one plus sign that may stand in front of a number.
pub open spec fn unsigned_part(s: Seq<char>) -> Seq<char> {
    if s.len() > 0 && s.first() == '+' {
        s.drop_first()
    } else {
        s
    }
}

/// The number that `s` writes: one or more digits, with one plus sign in
/// front of them at most. Anything else writes no number. No number is too
/// large to be written.
pub open spec fn number_of(s: Seq<char>) -> Option<nat> {
    let digits = unsigned_part(s);
    if digits.len() > 0 && all_digits(digits) {
        Some(digits_value(digits))
    } else {
        None
    }
}

/// How `n` is written: its digits without a sign, most significant first, and
/// without a leading zero, except that zero is `0`.
pub open spec fn decimal(n: nat) -> Seq<char>
    decreases n,
{
    if n < 10 {
        seq![digit_char(n)]
    } else {
        decimal(n / 10).push(digit_char(n % 10))
    }
}

/// Why characters were not read as a number within a limit.
#[derive(Clone, Copy, Debug, PartialEq, Eq, Structural)]
pub enum NumberError {
    /// The characters write no number.
    NotANumber,
    /// They write a number, which is above the limit.
    AboveLimit,
}

/// What reading `s` as a number of at most `limit` gives.
pub open spec fn bounded_number(s: Seq<char>, limit: u16) -> Result<u16, NumberError> {
    match number_of(s) {
        None => Err(NumberError::NotANumber),
        Some(n) => if n > limit {
            Err(NumberError::AboveLimit)
        } else {
            Ok(n as u16)
        },
    }
}

/// Writing a number and reading it back gives the number.
pub proof fn lemma_decimal_reads_back(n: nat)
    ensures
        decimal(n).len() > 0,
        all_digits(decimal(n)),
        digits_value(decimal(n)) == n,
        number_of(decimal(n)) == Some(n),
    decreases n,
{
    if n >= 10 {
        lemma_decimal_reads_back(n / 10);
        assert(decimal(n).drop_last() =~= decimal(n / 10));
        assert(decimal(n).first() == decimal(n / 10).first());
    } else {
        assert(decimal(n).drop_last() =~= Seq::<char>::empty());
        assert(digits_value(Seq::<char>::empty()) == 0);
    }
    assert(digits_value(decimal(n)) == digits_value(decimal(n).drop_last()) * 10 + digit_value(
        decimal(n).last(),
    ));
    assert(digit_value(digit_char(n % 10)) == n % 10);
    assert(decimal(n).last() == digit_char(n % 10));
    assert(decimal(n).first() != '+');
}

/// The value of the digit `c`, if it is one.
pub fn digit_of(c: char) -> (d: Option<u32>)
    ensures
        d is Some <==> is_digit(c),
        d matches Some(v) ==> v == digit_value(c) && v < 10,
{
    let code: u32 = c as u32;
    if 48 <= code && code <= 57 {
        Some(code - 48)
    } else {
        None
    }
}

/// Reads `s` as a number that may not be above `limit`.
pub fn parse_number(s: &[char], limit: u16) -> (r: Result<u16, NumberError>)
    ensures
        r == bounded_number(s@, limit),
{
    let n = s.len();
    let first: usize = if n > 0 && s[0] == '+' {
        1
    } else {
        0
    };
    let ghost digits = s@.subrange(first as int, n as int);
    assert(digits =~= unsigned_part(s@));
    if first == n {
        return Err(NumberError::NotANumber);
    }
    let mut i: usize = first;
    let mut value: u32 = 0;
    let mut above: bool = false;
    while i < n
        invariant
            first <= i <= n == s@.len(),
            digits == unsigned_part(s@),
            digits.len() == n - first,
            forall|k: int| 0 <= k < digits.len() ==> digits[k] == s@[first + k],
            all_digits(digits.take(i - first)),
            above ==> digits_value(digits.take(i - first)) > limit,
            !above ==> value == digits_value(digits.take(i - first)) && value <= limit,
        decreases n - i,
    {
        let ghost read = digits.take(i - first);
        let ghost next = digits.take(i + 1 - first);
        assert(next.drop_last() =~= read);
        match digit_of(s[i]) {
            None => {
                assert(!is_digit(digits[i - first]));
                return Err(NumberError::NotANumber);
            },
            Some(d) => {
                if !above {
                    value = value * 10 + d;
                    if value > limit as u32 {
                        above = true;
                    }
                }
            },
        }
        i += 1;
    }
    assert(digits.take(n - first) =~= digits);
    if above {
        Err(NumberError::AboveLimit)
    } else {
        Ok(value as u16)
    }
}

/// The digit for `d`, as text.
fn digit_str(d: u32) -> (s: &'static str)
    requires
        d < 10,
    ensures
        s@ == seq![digit_char(d as nat)],
{
    proof {
        reveal_strlit("0");
        reveal_strlit("1");
        reveal_strlit("2");
        reveal_strlit("3");
        reveal_strlit("4");
        reveal_strlit("5");
        reveal_strlit("6");
        reveal_strlit("7");
        reveal_strlit("8");
        reveal_strlit("9");
    }
    let s = match d {
        0 => "0",
        1 => "1",
        2 => "2",
        3 => "3",
        4 => "4",
        5 => "5",
        6 => "6",
        7 => "7",
        8 => "8",
        _ => "9",
    };
    assert(s@ =~= seq![digit_char(d as nat)]);
    s
}

/// Writes `n` in decimal at the end of `out`.
pub fn push_decimal(out: &mut String, n: u32)
    ensures
        final(out)@ == old(out)@ + decimal(n as nat),
    decreases n,
{
    if n >= 10 {
        push_decimal(out, n / 10);
    }
    out.append(digit_str(n % 10));
    assert(final(out)@ =~= old(out)@ + decimal(n as nat));
}

/// `n` written in decimal.
pub fn decimal_string(n: u32) -> (s: String)
    ensures
        s@ == decimal(n as nat),
{
    let mut s = String::new();
    push_decimal(&mut s, n);
    assert(s@ =~= decimal(n as nat));
    s
}

} // verus!
