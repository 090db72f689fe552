//! Reading a player's numbered choice from a line of input.
use vstd::prelude::*;

verus! {

/// Why a line was not taken as a choice.
#[derive(Debug, Clone, Copy, PartialEq, Eq, Structural)]
pub enum ChoiceError {
    /// The line is not a number.
    InvalidInput,
    /// The number is not one of the choices offered.
    InvalidNumber,
}

pub open spec fn is_digit(c: char) -> bool {
    '0' <= c && c <= '9'
}

pub open spec fn digit_value(c: char) -> nat {
    ((c as u32) - ('0' as u32)) as nat
}

pub open spec fn all_digits(s: Seq<char>) -> bool {
    forall|i: int| 0 <= i < s.len() ==> is_digit(#[trigger] s[i])
}

/// The number that the decimal digits `s` write.
pub open spec fn digits_value(s: Seq<char>) -> nat
    decreases s.len(),
{
    if s.len() == 0 {
        0
    } else {
        10 * digits_value(s.drop_last()) + digit_value(s.last())
    }
}

/// The digits of a number as written for `usize`'s parser: an optional
/// leading `+`, then the digits.
pub open spec fn number_digits(s: Seq<char>) -> Seq<char> {
    if s.len() > 0 && s[0] == '+' {
        s.drop_first()
    } else {
        s
    }
}

/// The `usize` that `s` writes in decimal, if it writes one: an optional
/// `+` and at least one digit, with a value that fits.
pub open spec fn parsed_usize(s: Seq<char>) -> Option<nat> {
    let d = number_digits(s);
    if d.len() > 0 && all_digits(d) && digits_value(d) <= usize::MAX {
        Some(digits_value(d))
    } else {
        None
    }
}

/// The choice that a line gives among `max` numbered options (numbered from
/// 1), as an index from 0.
pub open spec fn spec_choice(s: Seq<char>, max: usize) -> Result<usize, ChoiceError> {
    match parsed_usize(s) {
        None => Err(ChoiceError::InvalidInput),
        Some(n) => if n == 0 || n > max {
            Err(ChoiceError::InvalidNumber)
        } else {
            Ok((n - 1) as usize)
        },
    }
}

/// A choice that is taken is one of the options offered.
pub proof fn lemma_choice_in_range(s: Seq<char>, max: usize)
    ensures
        spec_choice(s, max) matches Ok(c) ==> c < max,
{
}

proof fn lemma_digits_value_grows(s: Seq<char>, i: int)
    requires
        0 <= i <= s.len(),
        all_digits(s),
    ensures
        digits_value(s.take(i)) <= digits_value(s),
    decreases s.len() - i,
{
    if i < s.len() {
        lemma_digits_value_grows(s, i + 1);
        assert(s.take(i + 1).drop_last() =~= s.take(i));
    } else {
        assert(s.take(i) =~= s);
    }
}

/// The number a line of input (already trimmed) gives, checked against the
/// `max_allowed_int` choices offered.
pub fn parse_choice(input: &str, max_allowed_int: usize) -> (choice: Result<usize, ChoiceError>)
    ensures
        choice == spec_choice(input@, max_allowed_int),
{
    let len = input.unicode_len();
    let mut start: usize = 0;
    if len > 0 && input.get_char(0) == '+' {
        start = 1;
    }
    let ghost d = number_digits(input@);
    proof {
        if start == 1 {
            assert(d =~= input@.subrange(1, len as int));
        } else {
            assert(d =~= input@.subrange(0, len as int));
        }
    }
    if start == len {
        return Err(ChoiceError::InvalidInput);
    }
    let mut value: usize = 0;
    let mut i: usize = start;
    while i < len
        invariant
            start <= i <= len,
            len == input@.len(),
            start < len,
            d == input@.subrange(start as int, len as int),
            d == number_digits(input@),
            all_digits(d.take(i - start)),
            value == digits_value(d.take(i - start)),
        decreases len - i,
    {
        let c = input.get_char(i);
        if !('0' <= c && c <= '9') {
            proof {
                assert(d[i - start] == c);
                assert(!is_digit(d[i - start]));
            }
            return Err(ChoiceError::InvalidInput);
        }
        let digit = (c as u32) - ('0' as u32);
        proof {
            assert(d.take(i - start + 1).drop_last() =~= d.take(i - start));
            assert(d.take(i - start + 1).last() == c);
            assert(digit_value(c) == digit);
            assert(digits_value(d.take(i - start + 1)) == 10 * value + digit);
            assert(all_digits(d.take(i - start + 1)));
        }
        let step = value.checked_mul(10);
        match step {
            None => {
                proof {
                    if all_digits(d) {
                        lemma_digits_value_grows(d, i - start + 1);
                    }
                }
                return Err(ChoiceError::InvalidInput);
            },
            Some(tens) => {
                match tens.checked_add(digit as usize) {
                    None => {
                        proof {
                            if all_digits(d) {
                                lemma_digits_value_grows(d, i - start + 1);
                            }
                        }
                        return Err(ChoiceError::InvalidInput);
                    },
                    Some(v) => {
                        value = v;
                    },
                }
            },
        }
        i = i + 1;
    }
    proof {
        assert(d.take(i - start) =~= d);
    }
    if value == 0 || value > max_allowed_int {
        Err(ChoiceError::InvalidNumber)
    } else {
        Ok(value - 1)
    }
}

} // verus!
