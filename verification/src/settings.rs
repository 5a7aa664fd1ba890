//! Numeric settings read from the environment: a value that is missing or
//! does not parse as a number falls back to the setting's default.
use vstd::prelude::*;

use crate::text::{chars_of, parse_u64, parse_u64_spec, parse_usize, parse_usize_spec};

verus! {

/// The value of a `usize` setting whose raw text is `raw`.
pub open spec fn usize_setting_value(raw: Option<Seq<char>>, default: usize) -> usize {
    match raw {
        Some(s) => match parse_usize_spec(s) {
            Some(v) => v,
            None => default,
        },
        None => default,
    }
}

/// The value of a `u64` setting whose raw text is `raw`.
pub open spec fn u64_setting_value(raw: Option<Seq<char>>, default: u64) -> u64 {
    match raw {
        Some(s) => match parse_u64_spec(s) {
            Some(v) => v,
            None => default,
        },
        None => default,
    }
}

/// The view of an optional string slice.
pub open spec fn opt_view(raw: Option<&str>) -> Option<Seq<char>> {
    match raw {
        Some(s) => Some(s@),
        None => None,
    }
}

/// Reads a `usize` setting: the parsed value of `raw`, or `default` when
/// `raw` is missing or is not a number.
pub fn usize_setting(raw: Option<&str>, default: usize) -> (r: usize)
    ensures
        r == usize_setting_value(opt_view(raw), default),
{
    match raw {
        Some(s) => match parse_usize(chars_of(s).as_slice()) {
            Some(v) => v,
            None => default,
        },
        None => default,
    }
}

/// Reads a `u64` setting: the parsed value of `raw`, or `default` when
/// `raw` is missing or is not a number.
pub fn u64_setting(raw: Option<&str>, default: u64) -> (r: u64)
    ensures
        r == u64_setting_value(opt_view(raw), default),
{
    match raw {
        Some(s) => match parse_u64(chars_of(s).as_slice()) {
            Some(v) => v,
            None => default,
        },
        None => default,
    }
}

} // verus!
