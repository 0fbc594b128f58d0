//! Reading the history window size from its textual setting.

use vstd::prelude::*;

verus! {

/// Why a history-length setting cannot be used.
#[derive(Debug, Clone, Copy, PartialEq, Eq, Structural)]
pub enum ConfigError {
    /// The setting is absent.
    Missing,
    /// The setting is not a decimal number that fits in `usize`.
    NotANumber,
    /// The setting is a number, but zero.
    NotPositive,
}

pub open spec fn is_digit(c: char) -> bool {
    '0' <= c && c <= '9'
}

pub open spec fn all_digits(s: Seq<char>) -> bool {
    forall|i: int| 0 <= i < s.len() ==> is_digit(#[trigger] s[i])
}

pub open spec fn digit_value(c: char) -> nat {
    (c as nat - '0' as nat) as nat
}

/// The value of a string of decimal digits, most significant first.
pub open spec fn decimal_value(s: Seq<char>) -> nat
    decreases s.len(),
{
    if s.len() == 0 {
        0
    } else {
        decimal_value(s.drop_last()) * 10 + digit_value(s.last())
    }
}

/// The digits of a setting: what follows an optional leading `+`.
pub open spec fn digits_of(s: Seq<char>) -> Seq<char> {
    if s.len() > 0 && s[0] == '+' {
        s.drop_first()
    } else {
        s
    }
}

/// A setting reads as a number when its digits are non-empty and all decimal.
pub open spec fn is_number(s: Seq<char>) -> bool {
    digits_of(s).len() > 0 && all_digits(digits_of(s))
}

/// What a history-length setting gives: a positive number of messages, or why not.
pub open spec fn history_limit_spec(setting: Option<Seq<char>>) -> Result<usize, ConfigError> {
    match setting {
        None => Err(ConfigError::Missing),
        Some(s) => if !is_number(s) || decimal_value(digits_of(s)) > usize::MAX {
            Err(ConfigError::NotANumber)
        } else if decimal_value(digits_of(s)) == 0 {
            Err(ConfigError::NotPositive)
        } else {
            Ok(decimal_value(digits_of(s)) as usize)
        },
    }
}

proof fn lemma_decimal_value_monotone(s: Seq<char>, c: char)
    requires
        is_digit(c),
    ensures
        decimal_value(s.push(c)) >= decimal_value(s),
        decimal_value(s.push(c)) == decimal_value(s) * 10 + digit_value(c),
{
    assert(s.push(c).drop_last() =~= s);
}

/// Reads an unsigned decimal number, with an optional leading `+`; `None` when
/// the text is not such a number or the number does not fit in `usize`.
pub fn parse_decimal(text: &str) -> (r: Option<usize>)
    ensures
        r matches Some(n) <==> is_number(text@) && decimal_value(digits_of(text@)) <= usize::MAX,
        r matches Some(n) ==> n == decimal_value(digits_of(text@)),
{
    let ghost s = text@;
    let mut value: usize = 0;
    let mut seen: bool = false;
    let mut first: bool = true;
    let mut signed: bool = false;
    let mut fits: bool = true;
    let mut digits: bool = true;
    for c in it: text.chars()
        invariant
            it.seq() == s,
            signed ==> s.len() > 0 && s[0] == '+',
            signed <==> (it.index() > 0 && s.len() > 0 && s[0] == '+'),
            seen <==> it.index() - (if signed { 1int } else { 0int }) > 0,
            first <==> it.index() == 0,
            digits <==> all_digits(s.subrange(if signed { 1int } else { 0int }, it.index() as int)),
            digits && fits ==> value == decimal_value(s.subrange(if signed { 1int } else { 0int }, it.index() as int)),
            digits ==> (fits <==> decimal_value(s.subrange(if signed { 1int } else { 0int }, it.index() as int)) <= usize::MAX),
    {
        let ghost start: int = if signed { 1int } else { 0int };
        let ghost k = it.index();
        if first && c == '+' {
            signed = true;
        } else {
            let ghost prev = s.subrange(start, k as int);
            assert(s.subrange(start, k + 1) =~= prev.push(c));
            seen = true;
            if digits && '0' <= c && c <= '9' {
                proof { lemma_decimal_value_monotone(prev, c); }
                let d = (c as u32 - '0' as u32) as usize;
                if fits && value <= (usize::MAX - d) / 10 {
                    value = value * 10 + d;
                } else {
                    fits = false;
                }
            } else {
                digits = false;
            }
        }
        first = false;
    }
    let ghost start: int = if signed { 1int } else { 0int };
    assert(digits_of(s) =~= s.subrange(start, s.len() as int));
    if digits && fits && seen {
        Some(value)
    } else {
        None
    }
}

/// The number of messages the history window holds, from its setting.
pub fn history_limit(setting: Option<&str>) -> (r: Result<usize, ConfigError>)
    ensures
        r == history_limit_spec(match setting { Some(t) => Some(t@), None => None }),
{
    match setting {
        None => Err(ConfigError::Missing),
        Some(text) => match parse_decimal(text) {
            None => Err(ConfigError::NotANumber),
            Some(0) => Err(ConfigError::NotPositive),
            Some(n) => Ok(n),
        },
    }
}

} // verus!
