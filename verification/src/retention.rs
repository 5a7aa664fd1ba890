//! Retention policies and disk-usage limits.
use vstd::prelude::*;

use crate::schema::definition::{IndexDefinition, PartitionStrategy};
use crate::schema::validation::{valid_retention, validation_outcome};
use crate::text::{
    digit_value, unsigned_digits,
    ascii_upper, char_ascii_upper, chars_of, chars_slice, chars_trim, parse_i64, parse_i64_spec,
    parse_u64, parse_u64_spec, trim,
};

verus! {

/// Disk-usage limits of the node.
pub struct RetentionConfig {
    /// Largest total size of the index directories, in bytes.
    pub max_index_bytes: u64,
    /// Largest total size of the WAL segments, in bytes.
    pub max_wal_bytes: u64,
}

impl Default for RetentionConfig {
    /// 1 GiB of index data and 512 MiB of WAL.
    fn default() -> (r: Self)
        ensures
            r.max_index_bytes == 1024 * 1024 * 1024,
            r.max_wal_bytes == 512 * 1024 * 1024,
    {
        RetentionConfig { max_index_bytes: 1024 * 1024 * 1024, max_wal_bytes: 512 * 1024 * 1024 }
    }
}

// ---------------------------------------------------------------------------
// Sizes with units
// ---------------------------------------------------------------------------

/// Whether the last characters of `t` are `a` then `b`, ignoring ASCII case.
pub open spec fn ends_with_unit2(t: Seq<char>, a: char, b: char) -> bool {
    t.len() >= 2 && ascii_upper(t[t.len() - 2]) == a && ascii_upper(t[t.len() - 1]) == b
}

/// How a trimmed size string splits into its number part and the
/// multiplier of its unit (`GB`, `MB`, `KB`, `B` or none; any ASCII case).
pub open spec fn size_parts(t: Seq<char>) -> (Seq<char>, nat) {
    if ends_with_unit2(t, 'G', 'B') {
        (t.subrange(0, t.len() - 2), 1_073_741_824)
    } else if ends_with_unit2(t, 'M', 'B') {
        (t.subrange(0, t.len() - 2), 1_048_576)
    } else if ends_with_unit2(t, 'K', 'B') {
        (t.subrange(0, t.len() - 2), 1_024)
    } else if t.len() >= 1 && ascii_upper(t[t.len() - 1]) == 'B' {
        (t.subrange(0, t.len() - 1), 1)
    } else {
        (t, 1)
    }
}

/// The number of bytes a size string such as `"100"`, `"1KB"`, `" 5 MB "`
/// or `"2gb"` stands for (as a mathematical integer), if it is one.
pub open spec fn size_value(s: Seq<char>) -> Option<nat> {
    let (num, mul) = size_parts(trim(s));
    match parse_u64_spec(trim(num)) {
        Some(v) => Some(v as nat * mul),
        None => None,
    }
}

/// Whether a size string's value fits in a `u64` (or is not a size at
/// all).
pub open spec fn size_fits(s: Seq<char>) -> bool {
    match size_value(s) {
        Some(v) => v <= u64::MAX,
        None => true,
    }
}

/// Parses a human-readable size: a decimal number with an optional unit
/// `B`, `KB`, `MB` or `GB` (binary multiples, any ASCII case), surrounded
/// by optional white space.
pub fn parse_size(s: &str) -> (r: Option<u64>)
    requires
        size_fits(s@),
    ensures
        r == match size_value(s@) {
            Some(v) => Some(v as u64),
            None => None::<u64>,
        },
{
    match size_in_bytes(s) {
        Some(v) => {
            if v > u64::MAX as u128 {
                None
            } else {
                Some(v as u64)
            }
        },
        None => None,
    }
}

/// Whether `parse_size` accepts `s` without its value overflowing.
pub fn size_fits_u64(s: &str) -> (r: bool)
    ensures
        r == size_fits(s@),
{
    match size_in_bytes(s) {
        Some(v) => v <= u64::MAX as u128,
        None => true,
    }
}

/// The value of a size string, computed without overflow.
fn size_in_bytes(s: &str) -> (r: Option<u128>)
    ensures
        r matches Some(x) ==> size_value(s@) == Some(x as nat),
        r is None ==> size_value(s@) is None,
{
    let cs = chars_of(s);
    let t = chars_trim(cs.as_slice());
    let n = t.len();
    let (num, mul): (Vec<char>, u64) = if n >= 2 && char_ascii_upper(t[n - 2]) == 'G'
        && char_ascii_upper(t[n - 1]) == 'B' {
        (chars_slice(t.as_slice(), 0, n - 2), 1_073_741_824u64)
    } else if n >= 2 && char_ascii_upper(t[n - 2]) == 'M' && char_ascii_upper(t[n - 1]) == 'B' {
        (chars_slice(t.as_slice(), 0, n - 2), 1_048_576u64)
    } else if n >= 2 && char_ascii_upper(t[n - 2]) == 'K' && char_ascii_upper(t[n - 1]) == 'B' {
        (chars_slice(t.as_slice(), 0, n - 2), 1_024u64)
    } else if n >= 1 && char_ascii_upper(t[n - 1]) == 'B' {
        (chars_slice(t.as_slice(), 0, n - 1), 1u64)
    } else {
        (chars_slice(t.as_slice(), 0, n), 1u64)
    };
    proof {
        assert(t@.subrange(0, n as int) =~= t@);
        assert(size_parts(trim(s@)) == (num@, mul as nat));
    }
    let num_t = chars_trim(num.as_slice());
    match parse_u64(num_t.as_slice()) {
        Some(v) => {
            assert((v as nat) * (mul as nat) <= u64::MAX * u64::MAX) by (nonlinear_arith)
                requires
                    v <= u64::MAX,
                    mul <= u64::MAX,
            ;
            Some((v as u128) * (mul as u128))
        },
        None => None,
    }
}

impl RetentionConfig {
    /// The default limits, each replaced by the given size when that size
    /// parses (an unparsable size keeps the default).
    pub fn with_overrides(max_index_bytes: Option<&str>, max_wal_bytes: Option<&str>) -> (r: Self)
        requires
            max_index_bytes matches Some(s) ==> size_fits(s@),
            max_wal_bytes matches Some(s) ==> size_fits(s@),
        ensures
            r.max_index_bytes == match max_index_bytes {
                Some(s) => match size_value(s@) {
                    Some(v) => v as u64,
                    None => 1_073_741_824u64,
                },
                None => 1_073_741_824u64,
            },
            r.max_wal_bytes == match max_wal_bytes {
                Some(s) => match size_value(s@) {
                    Some(v) => v as u64,
                    None => 536_870_912u64,
                },
                None => 536_870_912u64,
            },
    {
        let mut cfg = RetentionConfig::default();
        if let Some(s) = max_index_bytes {
            if let Some(n) = parse_size(s) {
                cfg.max_index_bytes = n;
            }
        }
        if let Some(s) = max_wal_bytes {
            if let Some(n) = parse_size(s) {
                cfg.max_wal_bytes = n;
            }
        }
        cfg
    }

    /// Whether the measured size of the index directories exceeds the limit.
    pub fn index_size_exceeded(&self, index_bytes: u64) -> (r: bool)
        ensures
            r == (index_bytes > self.max_index_bytes),
    {
        index_bytes > self.max_index_bytes
    }
}

// ---------------------------------------------------------------------------
// Retention durations
// ---------------------------------------------------------------------------

/// The largest number of seconds a duration may hold (`i64::MAX`
/// milliseconds).
pub open spec fn max_duration_seconds() -> int {
    9_223_372_036_854_775
}

/// The number of seconds per unit: `s`, `m`, `h`, `d`, `w`, `M` (30 days),
/// `y` (365 days).
pub open spec fn unit_seconds(c: char) -> Option<int> {
    if c == 's' {
        Some(1)
    } else if c == 'm' {
        Some(60)
    } else if c == 'h' {
        Some(3600)
    } else if c == 'd' {
        Some(86400)
    } else if c == 'w' {
        Some(604800int)
    } else if c == 'M' {
        Some(2592000int)
    } else if c == 'y' {
        Some(31536000int)
    } else {
        None
    }
}

/// The duration, in seconds, that a retention string such as `"7d"`,
/// `"12h"` or `"1M"` stands for: a signed decimal number followed by one
/// unit character.
pub open spec fn retention_seconds(s: Seq<char>) -> Option<int> {
    if s.len() == 0 {
        None
    } else {
        match (parse_i64_spec(s.drop_last()), unit_seconds(s.last())) {
            (Some(n), Some(u)) => Some(n * u),
            _ => None,
        }
    }
}

/// Whether a retention string can be turned into a duration: it is not
/// one, or its duration lies within the representable range.
pub open spec fn retention_fits(s: Seq<char>) -> bool {
    match retention_seconds(s) {
        Some(v) => -max_duration_seconds() <= v <= max_duration_seconds(),
        None => true,
    }
}

/// The duration in seconds of a retention string (see
/// [`retention_seconds`]).
pub fn parse_retention_duration(s: &str) -> (r: Option<i64>)
    requires
        s@.len() == 0 || (s@.last() as u32) < 0x80,
        retention_fits(s@),
    ensures
        r == match retention_seconds(s@) {
            Some(v) => Some(v as i64),
            None => None::<i64>,
        },
{
    match retention_in_seconds(s) {
        Some(v) => {
            if v < -9_223_372_036_854_775i128 || v > 9_223_372_036_854_775i128 {
                None
            } else {
                Some(v as i64)
            }
        },
        None => None,
    }
}

/// Whether `parse_retention_duration` accepts `s` without leaving the
/// representable range.
pub fn retention_duration_fits(s: &str) -> (r: bool)
    ensures
        r == retention_fits(s@),
{
    match retention_in_seconds(s) {
        Some(v) => -9_223_372_036_854_775i128 <= v && v <= 9_223_372_036_854_775i128,
        None => true,
    }
}

fn retention_in_seconds(s: &str) -> (r: Option<i128>)
    ensures
        r matches Some(x) ==> retention_seconds(s@) == Some(x as int),
        r is None ==> retention_seconds(s@) is None,
{
    let cs = chars_of(s);
    if cs.len() == 0 {
        return None;
    }
    let n = cs.len() - 1;
    let unit = cs[n];
    let num = chars_slice(cs.as_slice(), 0, n);
    assert(num@ =~= s@.drop_last());
    let per: i128 = if unit == 's' {
        1
    } else if unit == 'm' {
        60
    } else if unit == 'h' {
        3600
    } else if unit == 'd' {
        86400
    } else if unit == 'w' {
        7 * 86400
    } else if unit == 'M' {
        30 * 86400
    } else if unit == 'y' {
        365 * 86400
    } else {
        return None;
    };
    match parse_i64(num.as_slice()) {
        Some(v) => {
            assert(-0x8000_0000_0000_0000 * 365 * 86400 <= (v as int) * (per as int) <= 0x8000_0000_0000_0000
                * 365 * 86400) by (nonlinear_arith)
                requires
                    i64::MIN <= v <= i64::MAX,
                    1 <= per <= 365 * 86400,
            ;
            Some((v as i128) * per)
        },
        None => None,
    }
}

/// A purge to schedule: the index and the retention duration in seconds.
pub struct RetentionPurge {
    pub index_name: String,
    pub seconds: i64,
}

/// Whether a definition yields a purge: it has a retention value that
/// denotes a duration.
pub open spec fn yields_purge(d: IndexDefinition) -> bool {
    d.retention matches Some(r) && retention_seconds(r@) is Some
}

/// The purges that retention policies call for, in the order of `defs`:
/// one for each definition whose retention value denotes a duration;
/// definitions without one, or with an invalid one, are skipped.
pub open spec fn retention_purges_spec(defs: Seq<IndexDefinition>) -> Seq<(Seq<char>, int)>
    decreases defs.len(),
{
    if defs.len() == 0 {
        Seq::empty()
    } else {
        let rest = retention_purges_spec(defs.drop_last());
        let d = defs.last();
        if yields_purge(d) {
            rest.push((d.name@, retention_seconds(d.retention.unwrap()@).unwrap()))
        } else {
            rest
        }
    }
}

/// Whether every retention value of `defs` can be split and fits the
/// duration range.
pub open spec fn retentions_usable(defs: Seq<IndexDefinition>) -> bool {
    forall|i: int|
        0 <= i < defs.len() ==> ((#[trigger] defs[i]).retention matches Some(r) ==> (r@.len() == 0
            || (r@.last() as u32) < 0x80) && retention_fits(r@))
}

/// Plans the retention purges for the registered definitions.
pub fn plan_retention(defs: &Vec<IndexDefinition>) -> (r: Vec<RetentionPurge>)
    requires
        retentions_usable(defs@),
    ensures
        r@.len() == retention_purges_spec(defs@).len(),
        forall|i: int|
            0 <= i < r@.len() ==> (#[trigger] r@[i]).index_name@ == retention_purges_spec(
                defs@,
            )[i].0 && r@[i].seconds as int == retention_purges_spec(defs@)[i].1,
{
    let mut out: Vec<RetentionPurge> = Vec::new();
    let mut i: usize = 0;
    while i < defs.len()
        invariant
            retentions_usable(defs@),
            i <= defs@.len(),
            out@.len() == retention_purges_spec(defs@.take(i as int)).len(),
            forall|k: int|
                0 <= k < out@.len() ==> (#[trigger] out@[k]).index_name@ == retention_purges_spec(
                    defs@.take(i as int),
                )[k].0 && out@[k].seconds as int == retention_purges_spec(defs@.take(i as int))[k].1,
        decreases defs@.len() - i,
    {
        let d = &defs[i];
        assert(defs@.take(i + 1).drop_last() =~= defs@.take(i as int));
        assert(defs@.take(i + 1).last() == defs@[i as int]);
        match &d.retention {
            Some(ret) => {
                assert(retentions_usable(defs@) ==> (defs@[i as int].retention matches Some(r) ==> (
                r@.len() == 0 || (r@.last() as u32) < 0x80) && retention_fits(r@)));
                match parse_retention_duration(ret.as_str()) {
                    Some(secs) => {
                        out.push(RetentionPurge { index_name: d.name.clone(), seconds: secs });
                    },
                    None => {},
                }
            },
            None => {},
        }
        i = i + 1;
    }
    assert(defs@.take(defs@.len() as int) =~= defs@);
    out
}

/// Every retention that schema validation accepts, with a number that fits
/// an `i64`, stands for a non-negative duration that the retention worker
/// understands.
pub proof fn law_valid_retention_has_duration(s: Seq<char>)
    requires
        valid_retention(s),
        parse_u64_spec(s.drop_last()).unwrap() <= i64::MAX,
    ensures
        retention_seconds(s) is Some,
        retention_seconds(s).unwrap() >= 0,
{
    let d = s.drop_last();
    if d.len() > 0 && d[0] == '-' {
        assert(digit_value(unsigned_digits(d)[0], 10) is None);
    }
}

/// Schema validation accepts exactly the retention values that the
/// retention worker reads with a unit it knows: a non-negative number
/// followed by one of the units [`unit_seconds`] gives a length to.
pub proof fn law_validation_units_match_worker(s: Seq<char>)
    ensures
        valid_retention(s) <==> (s.len() > 0 && parse_u64_spec(s.drop_last()) is Some && unit_seconds(
            s.last(),
        ) is Some),
{
}

/// An unpartitioned definition whose retention is a non-negative number
/// followed by a unit the retention worker knows passes validation.
pub proof fn law_worker_units_pass_validation(def: IndexDefinition)
    requires
        def.partition == PartitionStrategy::Unpartitioned,
        def.retention matches Some(r) && r@.len() > 0 && parse_u64_spec(r@.drop_last()) is Some
            && unit_seconds(r@.last()) is Some,
    ensures
        validation_outcome(def) is Ok,
{
}

} // verus!
