//! The configuration-time error taxonomy and its human-readable messages.

use vstd::prelude::*;
use vstd::string::StringExecFns;

verus! {

/// A fatal configuration error, raised before any input is touched.
#[derive(Debug)]
pub enum ConfigError {
    /// A range-list token (or the whole list) that is not a legal value;
    /// carries the offending text.
    IllegalListValue(String),
    /// A list value that parsed to zero, which is not a legal 1-based position.
    ZeroValue,
    /// A range `N-M` whose second bound is not strictly greater than the
    /// first; carries the two parsed bounds `(N, M)`.
    InvertedRange(usize, usize),
    /// A field delimiter that is not a single one-byte character.
    BadDelimiter,
    /// No selector flag (fields, characters or bytes) was given.
    NoSelector,
}

/// The character for a single decimal digit value.
pub open spec fn digit_char(d: nat) -> char {
    if d == 0 {
        '0'
    } else if d == 1 {
        '1'
    } else if d == 2 {
        '2'
    } else if d == 3 {
        '3'
    } else if d == 4 {
        '4'
    } else if d == 5 {
        '5'
    } else if d == 6 {
        '6'
    } else if d == 7 {
        '7'
    } else if d == 8 {
        '8'
    } else {
        '9'
    }
}

/// The decimal rendering of a number, most significant digit first.
pub open spec fn dec_str(n: nat) -> Seq<char>
    decreases n,
{
    if n < 10 {
        seq![digit_char(n)]
    } else {
        dec_str(n / 10).push(digit_char(n % 10))
    }
}

pub open spec fn illegal_value_msg(t: Seq<char>) -> Seq<char> {
    "kat: illegal list value: '"@ + t + "'"@
}

pub open spec fn zero_msg() -> Seq<char> {
    "kat: list values may not include zero"@
}

pub open spec fn inverted_msg(a: nat, b: nat) -> Seq<char> {
    "First number in range ("@ + dec_str(a) + ") must be lower than second number ("@ + dec_str(
        b,
    ) + ")"@
}

pub open spec fn bad_delimiter_msg() -> Seq<char> {
    "kat: bad delimiter"@
}

pub open spec fn no_selector_msg() -> Seq<char> {
    "Must have --fields, --bytes, or --chars"@
}

/// The exact message text reported for each error.
pub open spec fn message_of(e: ConfigError) -> Seq<char> {
    match e {
        ConfigError::IllegalListValue(v) => illegal_value_msg(v@),
        ConfigError::ZeroValue => zero_msg(),
        ConfigError::InvertedRange(a, b) => inverted_msg(a as nat, b as nat),
        ConfigError::BadDelimiter => bad_delimiter_msg(),
        ConfigError::NoSelector => no_selector_msg(),
    }
}

/// One decimal digit as a string slice.
fn digit_str(d: usize) -> (s: &'static str)
    requires
        d < 10,
    ensures
        s@ =~= seq![digit_char(d as nat)],
{
    proof {
        reveal_strlit("0");
        reveal_strlit("1");
        reveal_strlit("2");
        reveal_strlit("3");
        reveal_strlit("4");
        reveal_strlit("5");
        reveal_strlit("6");
        reveal_strlit("7");
        reveal_strlit("8");
        reveal_strlit("9");
    }
    match d {
        0 => "0",
        1 => "1",
        2 => "2",
        3 => "3",
        4 => "4",
        5 => "5",
        6 => "6",
        7 => "7",
        8 => "8",
        _ => "9",
    }
}

/// The decimal rendering of `n`.
fn usize_to_string(n: usize) -> (s: String)
    ensures
        s@ == dec_str(n as nat),
    decreases n,
{
    if n < 10 {
        let s = String::from_str(digit_str(n));
        s
    } else {
        let mut s = usize_to_string(n / 10);
        s.append(digit_str(n % 10));
        proof {
            assert(s@ =~= dec_str((n / 10) as nat).push(digit_char((n % 10) as nat)));
        }
        s
    }
}

impl ConfigError {
    /// The human-readable message for this error, as the tool prints it.
    pub fn message(&self) -> (s: String)
        ensures
            s@ == message_of(*self),
    {
        match self {
            ConfigError::IllegalListValue(v) => {
                let mut s = String::from_str("kat: illegal list value: '");
                s.append(v.as_str());
                s.append("'");
                proof {
                    assert(s@ =~= illegal_value_msg(v@));
                }
                s
            },
            ConfigError::ZeroValue => String::from_str("kat: list values may not include zero"),
            ConfigError::InvertedRange(a, b) => {
                let mut s = String::from_str("First number in range (");
                let sa = usize_to_string(*a);
                s.append(sa.as_str());
                s.append(") must be lower than second number (");
                let sb = usize_to_string(*b);
                s.append(sb.as_str());
                s.append(")");
                proof {
                    assert(s@ =~= inverted_msg(*a as nat, *b as nat));
                }
                s
            },
            ConfigError::BadDelimiter => String::from_str("kat: bad delimiter"),
            ConfigError::NoSelector => String::from_str("Must have --fields, --bytes, or --chars"),
        }
    }
}

} // verus!
