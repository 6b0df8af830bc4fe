//! The notation of a die, and reading a die from it.
//!
//! A notation is one of the codes `bd`, `sb`, `dd`, `pd`, `cd` and `fd`, for
//! the narrative dice, or a count and a number of sides with the letter `d`
//! between them, as in `2d6`. The codes and the `d` are lower case.

use crate::die::DieDescriptor;
use crate::error::{ParseError, ParseFailure};
use crate::number::{
    decimal, is_digit, lemma_decimal_reads_back, number_of, parse_number, NumberError,
};
use crate::text::{
    chars_of, free_of, joined, lemma_pieces_of_joined, lemma_trimmed_keeps, pieces, split, trim,
    trimmed, views,
};
use vstd::prelude::*;

verus! {

/// The greatest count and the greatest number of sides that `Dice::from`
/// accepts.
pub const DEFAULT_LIMIT: u16 = 255;

/// The narrative die that `s` is the code of, if it is the code of one.
pub open spec fn code_of(s: Seq<char>) -> Option<DieDescriptor> {
    if s == "bd"@ {
        Some(DieDescriptor::Boost)
    } else if s == "sb"@ {
        Some(DieDescriptor::Setback)
    } else if s == "dd"@ {
        Some(DieDescriptor::Difficulty)
    } else if s == "pd"@ {
        Some(DieDescriptor::Proficiency)
    } else if s == "cd"@ {
        Some(DieDescriptor::Challenge)
    } else if s == "fd"@ {
        Some(DieDescriptor::Force)
    } else {
        None
    }
}

/// What the notation `s` names, where neither the count nor the sides of a
/// numeric die may be above `limit`.
///
/// A code names its narrative die. Any other notation is cut at each `d`, and
/// must fall into two pieces. Each piece, without the white space around it,
/// must write a number: the count and the sides. Where that fails, the
/// notation is malformed. Where it holds and one of the two numbers is above
/// the limit, the value is too large.
pub open spec fn parsed(s: Seq<char>, limit: u16) -> Result<DieDescriptor, ParseFailure> {
    match code_of(s) {
        Some(die) => Ok(die),
        None => {
            let parts = pieces(s, 'd');
            if parts.len() != 2 {
                Err(ParseFailure::MalformedNotation { input: s })
            } else {
                match (number_of(trimmed(parts[0])), number_of(trimmed(parts[1]))) {
                    (Some(num), Some(dtype)) => if num > limit || dtype > limit {
                        Err(ParseFailure::ValueTooLarge { input: s, limit })
                    } else {
                        Ok(DieDescriptor::Numeric { num: num as u16, dtype: dtype as u16 })
                    },
                    _ => Err(ParseFailure::MalformedNotation { input: s }),
                }
            }
        },
    }
}

/// A result of reading a notation as contracts see it.
pub open spec fn seen(r: Result<DieDescriptor, ParseError>) -> Result<DieDescriptor, ParseFailure> {
    match r {
        Ok(die) => Ok(die),
        Err(e) => Err(e@),
    }
}

/// A narrative die is named by its code and by nothing else: no other
/// spelling of a code, in capitals or with anything around it, names one.
pub proof fn lemma_codes_are_exact(s: Seq<char>, limit: u16, die: DieDescriptor)
    requires
        die !is Numeric,
    ensures
        parsed(s, limit) == Ok::<DieDescriptor, ParseFailure>(die) <==> code_of(s) == Some(die),
{
}

/// A numeric die that a notation names keeps within the limit, and an error
/// holds the notation that was refused.
pub proof fn lemma_parsed_within_limit(s: Seq<char>, limit: u16)
    ensures
        parsed(s, limit) matches Ok(DieDescriptor::Numeric { num, dtype }) ==> num <= limit && dtype
            <= limit,
        parsed(s, limit) matches Err(e) ==> e.input() == s,
        parsed(s, limit) matches Err(ParseFailure::ValueTooLarge { limit: l, .. }) ==> l == limit,
{
}

/// How a die is written: a narrative die by its code, a numeric die by its
/// count and its sides in decimal with a `d` between them.
pub open spec fn notation_of(die: DieDescriptor) -> Seq<char> {
    match die {
        DieDescriptor::Boost => "bd"@,
        DieDescriptor::Setback => "sb"@,
        DieDescriptor::Difficulty => "dd"@,
        DieDescriptor::Proficiency => "pd"@,
        DieDescriptor::Challenge => "cd"@,
        DieDescriptor::Force => "fd"@,
        DieDescriptor::Numeric { num, dtype } => decimal(num as nat) + seq!['d'] + decimal(
            dtype as nat,
        ),
    }
}

/// What a die is written as is read as that die, every time and whatever the
/// limit, save that a numeric die with a count or with sides above the limit
/// is refused as too large.
pub proof fn lemma_notation_reads_back(die: DieDescriptor, limit: u16)
    ensures
        parsed(notation_of(die), limit) == match die {
            DieDescriptor::Numeric { num, dtype } if num > limit || dtype > limit => Err(
                ParseFailure::ValueTooLarge { input: notation_of(die), limit },
            ),
            _ => Ok(die),
        },
{
    reveal_strlit("bd");
    reveal_strlit("sb");
    reveal_strlit("dd");
    reveal_strlit("pd");
    reveal_strlit("cd");
    reveal_strlit("fd");
    assert("bd"@[0] == 'b' && "sb"@[0] == 's' && "dd"@[0] == 'd');
    assert("pd"@[0] == 'p' && "cd"@[0] == 'c' && "fd"@[0] == 'f');
    match die {
        DieDescriptor::Numeric { num, dtype } => {
            let count = decimal(num as nat);
            let sides = decimal(dtype as nat);
            let s = notation_of(die);
            lemma_decimal_reads_back(num as nat);
            lemma_decimal_reads_back(dtype as nat);
            assert(is_digit(count[0]));
            assert(s[0] == count[0]);
            assert(code_of(s) is None);
            assert(free_of(count, 'd')) by {
                assert forall|i: int| 0 <= i < count.len() implies #[trigger] count[i] != 'd' by {
                    assert(is_digit(count[i]));
                }
            }
            assert(free_of(sides, 'd')) by {
                assert forall|i: int| 0 <= i < sides.len() implies #[trigger] sides[i] != 'd' by {
                    assert(is_digit(sides[i]));
                }
            }
            let parts = seq![count, sides];
            assert(parts.drop_last() =~= seq![count]);
            assert(joined(parts.drop_last(), 'd') == count);
            assert(joined(parts, 'd') =~= s);
            lemma_pieces_of_joined(parts, 'd');
            assert(is_digit(count.first()) && is_digit(count.last()));
            assert(is_digit(sides.first()) && is_digit(sides.last()));
            lemma_trimmed_keeps(count);
            lemma_trimmed_keeps(sides);
        },
        _ => {},
    }
}

/// The narrative die that `s` is the code of, if it is the code of one.
pub fn code(s: &[char]) -> (die: Option<DieDescriptor>)
    ensures
        die == code_of(s@),
{
    proof {
        reveal_strlit("bd");
        reveal_strlit("sb");
        reveal_strlit("dd");
        reveal_strlit("pd");
        reveal_strlit("cd");
        reveal_strlit("fd");
    }
    if s.len() != 2 {
        return None;
    }
    let first: char = s[0];
    let second: char = s[1];
    let die = if first == 's' && second == 'b' {
        Some(DieDescriptor::Setback)
    } else if second != 'd' {
        None
    } else if first == 'b' {
        Some(DieDescriptor::Boost)
    } else if first == 'd' {
        Some(DieDescriptor::Difficulty)
    } else if first == 'p' {
        Some(DieDescriptor::Proficiency)
    } else if first == 'c' {
        Some(DieDescriptor::Challenge)
    } else if first == 'f' {
        Some(DieDescriptor::Force)
    } else {
        None
    };
    proof {
        assert(s@ =~= seq![first, second]);
        assert("bd"@ =~= seq!['b', 'd']);
        assert("sb"@ =~= seq!['s', 'b']);
        assert("dd"@ =~= seq!['d', 'd']);
        assert("pd"@ =~= seq!['p', 'd']);
        assert("cd"@ =~= seq!['c', 'd']);
        assert("fd"@ =~= seq!['f', 'd']);
    }
    die
}

/// The reader of dice notation.
pub struct Dice {}

impl Dice {
    /// Reads the die that the notation `dice` names. Neither the count nor
    /// the sides of a numeric die may be above `DEFAULT_LIMIT`.
    pub fn from(dice: &str) -> (die: Result<DieDescriptor, ParseError>)
        ensures
            seen(die) == parsed(dice@, DEFAULT_LIMIT),
    {
        Dice::from_with_limit(dice, DEFAULT_LIMIT)
    }

    /// Reads the die that the notation `dice` names, where neither the count
    /// nor the sides of a numeric die may be above `limit`.
    pub fn from_with_limit(dice: &str, limit: u16) -> (die: Result<DieDescriptor, ParseError>)
        ensures
            seen(die) == parsed(dice@, limit),
    {
        let chars = chars_of(dice);
        if let Some(die) = code(chars.as_slice()) {
            return Ok(die);
        }
        let parts = split(chars.as_slice(), 'd');
        if parts.len() != 2 {
            return Err(ParseError::MalformedNotation { input: dice.to_owned() });
        }
        assert(views(parts@)[0] == parts@[0]@ && views(parts@)[1] == parts@[1]@);
        let num = parse_number(trim(parts[0]), limit);
        let dtype = parse_number(trim(parts[1]), limit);
        match (num, dtype) {
            (Ok(num), Ok(dtype)) => Ok(DieDescriptor::Numeric { num, dtype }),
            (Err(NumberError::NotANumber), _) | (_, Err(NumberError::NotANumber)) => Err(
                ParseError::MalformedNotation { input: dice.to_owned() },
            ),
            _ => Err(ParseError::ValueTooLarge { input: dice.to_owned(), limit }),
        }
    }
}

} // verus!
