//! Run configuration: the selector variant, the delimiter and the inputs.

use vstd::prelude::*;
use vstd::string::{StrSliceExecFns, StringExecFns};

use crate::errors::ConfigError;
use crate::positions::{list_err_matches, list_ok, parse_positions, positions_match, Range};

verus! {

/// The active extraction mode, chosen once at configuration time.
#[derive(Debug)]
pub enum Selector {
    Bytes(Vec<Range>),
    Chars(Vec<Range>),
    Fields(Vec<Range>),
}

/// The immutable configuration of one run.
#[derive(Debug)]
pub struct Config {
    /// The input names, in order; `-` selects standard input.
    pub files: Vec<String>,
    /// The single extraction strategy applied to every line.
    pub selector: Selector,
    /// The field delimiter byte; meaningful only for field selection.
    pub delimiter: u8,
}

/// A usable delimiter argument: exactly one character, and that character a
/// single byte.
pub open spec fn delimiter_ok(d: Seq<char>) -> bool {
    d.len() == 1 && (d[0] as u32) < 128
}

/// The delimiter byte denoted by a valid delimiter argument.
pub open spec fn delimiter_byte(d: Seq<char>) -> u8 {
    (d[0] as u32) as u8
}

/// Law: a delimiter argument whose length in characters is not exactly one
/// is never accepted; by the contract of `build_config`, such an argument
/// always yields the bad-delimiter configuration error.
pub proof fn lemma_delimiter_length(d: Seq<char>)
    requires
        d.len() != 1,
    ensures
        !delimiter_ok(d),
{
}

/// The list argument is either absent or fully valid.
pub open spec fn opt_list_ok(o: Option<String>) -> bool {
    match o {
        Some(s) => list_ok(s@),
        None => true,
    }
}

/// The parsed selector carries the ranges of the given list argument.
pub open spec fn selector_matches(
    fields: Option<String>,
    chars: Option<String>,
    bytes: Option<String>,
    sel: Selector,
) -> bool {
    match fields {
        Some(f) => sel matches Selector::Fields(v) && positions_match(f@, v@),
        None => match chars {
            Some(c) => sel matches Selector::Chars(v) && positions_match(c@, v@),
            None => match bytes {
                Some(b) => sel matches Selector::Bytes(v) && positions_match(b@, v@),
                None => false,
            },
        },
    }
}

/// Assemble the run configuration from the plain command-line values.
///
/// The delimiter is checked first; the three position lists are then parsed
/// in the order fields, characters, bytes, and the first present one, in
/// that same order, decides the selector. With no input names, standard
/// input (`-`) is the single source. The default delimiter is a tab.
pub fn build_config(
    files: Vec<String>,
    delimiter: Option<String>,
    fields: Option<String>,
    chars: Option<String>,
    bytes: Option<String>,
) -> (r: Result<Config, ConfigError>)
    ensures
        r is Ok <==> {
            &&& (delimiter matches Some(d) ==> delimiter_ok(d@))
            &&& opt_list_ok(fields)
            &&& opt_list_ok(chars)
            &&& opt_list_ok(bytes)
            &&& !(fields is None && chars is None && bytes is None)
        },
        r matches Ok(cfg) ==> {
            &&& (delimiter matches Some(d) ==> cfg.delimiter == delimiter_byte(d@))
            &&& (delimiter is None ==> cfg.delimiter == 9)
            &&& cfg.files.deep_view() == if files@.len() == 0 {
                seq!["-"@]
            } else {
                files.deep_view()
            }
            &&& selector_matches(fields, chars, bytes, cfg.selector)
        },
        r matches Err(e) ==> {
            if delimiter matches Some(d) && !delimiter_ok(d@) {
                e is BadDelimiter
            } else if !opt_list_ok(fields) {
                fields matches Some(f) && list_err_matches(f@, e)
            } else if !opt_list_ok(chars) {
                chars matches Some(c) && list_err_matches(c@, e)
            } else if !opt_list_ok(bytes) {
                bytes matches Some(b) && list_err_matches(b@, e)
            } else {
                e is NoSelector
            }
        },
{
    let delim: u8 = match &delimiter {
        None => 9,
        Some(d) => {
            let ds = d.as_str();
            if ds.unicode_len() != 1 {
                return Err(ConfigError::BadDelimiter);
            }
            let c = ds.get_char(0);
            let cu = c as u32;
            if cu >= 128 {
                return Err(ConfigError::BadDelimiter);
            }
            cu as u8
        },
    };
    let parsed_fields = match &fields {
        None => None,
        Some(s) => match parse_positions(s.as_str()) {
            Ok(v) => Some(v),
            Err(e) => {
                return Err(e);
            },
        },
    };
    let parsed_chars = match &chars {
        None => None,
        Some(s) => match parse_positions(s.as_str()) {
            Ok(v) => Some(v),
            Err(e) => {
                return Err(e);
            },
        },
    };
    let parsed_bytes = match &bytes {
        None => None,
        Some(s) => match parse_positions(s.as_str()) {
            Ok(v) => Some(v),
            Err(e) => {
                return Err(e);
            },
        },
    };
    let selector = match parsed_fields {
        Some(v) => Selector::Fields(v),
        None => match parsed_chars {
            Some(v) => Selector::Chars(v),
            None => match parsed_bytes {
                Some(v) => Selector::Bytes(v),
                None => {
                    return Err(ConfigError::NoSelector);
                },
            },
        },
    };
    let file_list: Vec<String> = if files.len() == 0 {
        let mut v: Vec<String> = Vec::new();
        v.push(String::from_str("-"));
        proof {
            assert(v.deep_view() =~~= seq!["-"@]);
        }
        v
    } else {
        files
    };
    Ok(Config { files: file_list, selector, delimiter: delim })
}

} // verus!
