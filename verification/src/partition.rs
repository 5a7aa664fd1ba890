//! Time-based partition names and on-disk paths.
use vstd::prelude::*;

use crate::json::{get_member, JsonValue};
use crate::schema::definition::{IndexDefinition, PartitionStrategy};
use crate::text::{chars_of, concat, owned, string_from_chars};

verus! {

// ---------------------------------------------------------------------------
// Instants and their calendar formatting
// ---------------------------------------------------------------------------

/// A UTC instant: seconds since the Unix epoch and nanoseconds within the
/// second (a leap second has nanoseconds of one second or more).
#[derive(Clone, Copy, Debug, PartialEq, Eq, Structural)]
pub struct UtcTimestamp {
    pub secs: i64,
    pub nanos: u32,
}

/// Whether chrono represents the instant `(secs, nanos)` (what
/// `DateTime::from_timestamp(secs, nanos)` accepts).
pub uninterp spec fn chrono_valid_instant(secs: i64, nanos: u32) -> bool;

/// What `DateTime::parse_from_rfc3339`, converted to UTC, gives for `s`:
/// the instant, or the parse error's message.
pub uninterp spec fn chrono_parse_rfc3339(s: Seq<char>) -> Result<UtcTimestamp, Seq<char>>;

/// What `s.parse::<DateTime<Utc>>()` gives: the instant, or the parse
/// error's message.
pub uninterp spec fn chrono_parse_utc(s: Seq<char>) -> Result<UtcTimestamp, Seq<char>>;

/// What `DateTime::<Utc>::format(fmt).to_string()` gives for the instant
/// `(secs, nanos)`.
pub uninterp spec fn chrono_format(secs: i64, nanos: u32, fmt: Seq<char>) -> Seq<char>;

/// The view of a parse result: the instant, or the error message.
pub open spec fn parse_result_view(r: Result<UtcTimestamp, String>) -> Result<
    UtcTimestamp,
    Seq<char>,
> {
    match r {
        Ok(t) => Ok(t),
        Err(m) => Err(m@),
    }
}

/// `chrono::DateTime::parse_from_rfc3339`, converted to UTC. The contract
/// names the result and claims that an instant chrono produced is one that
/// chrono represents.
#[verifier::external_body]
fn rfc3339_to_utc(s: &str) -> (r: Result<UtcTimestamp, String>)
    ensures
        parse_result_view(r) == chrono_parse_rfc3339(s@),
        r matches Ok(t) ==> chrono_valid_instant(t.secs, t.nanos),
{
    chrono::DateTime::parse_from_rfc3339(s).map(
        |dt| UtcTimestamp { secs: dt.timestamp(), nanos: dt.timestamp_subsec_nanos() },
    ).map_err(|e| e.to_string())
}

/// `<chrono::DateTime<chrono::Utc> as FromStr>::from_str`. The contract
/// names the result and claims that an instant chrono produced is one that
/// chrono represents.
#[verifier::external_body]
fn utc_from_str(s: &str) -> (r: Result<UtcTimestamp, String>)
    ensures
        parse_result_view(r) == chrono_parse_utc(s@),
        r matches Ok(t) ==> chrono_valid_instant(t.secs, t.nanos),
{
    s.parse::<chrono::DateTime<chrono::Utc>>().map(
        |dt| UtcTimestamp { secs: dt.timestamp(), nanos: dt.timestamp_subsec_nanos() },
    ).map_err(|e| e.to_string())
}

/// `chrono::DateTime::<Utc>::from_timestamp(secs, 0)`: the instant `secs`
/// seconds after the epoch, when chrono represents it.
#[verifier::external_body]
fn utc_from_unix_seconds(secs: i64) -> (r: Option<UtcTimestamp>)
    ensures
        r is Some <==> chrono_valid_instant(secs, 0),
        r matches Some(t) ==> t == (UtcTimestamp { secs, nanos: 0 }),
{
    chrono::DateTime::<chrono::Utc>::from_timestamp(secs, 0).map(
        |dt| UtcTimestamp { secs: dt.timestamp(), nanos: dt.timestamp_subsec_nanos() },
    )
}

/// The formats that partition names are written in: `%Y-%m-%d`,
/// `%Y-%m-%d-%H` and `%Y-%m`. chrono renders each of them without error.
pub open spec fn partition_format(fmt: Seq<char>) -> bool {
    fmt == "%Y-%m-%d"@ || fmt == "%Y-%m-%d-%H"@ || fmt == "%Y-%m"@
}

/// `chrono::format::DelayedFormat::to_string` of `DateTime::format(fmt)`
/// for the instant `t`. The contract names the text. It is asked only for
/// the partition formats: chrono's formatter fails on an invalid
/// specifier, and `to_string` then panics.
#[verifier::external_body]
fn format_instant(t: &UtcTimestamp, fmt: &str) -> (r: String)
    requires
        chrono_valid_instant(t.secs, t.nanos),
        partition_format(fmt@),
    ensures
        r@ == chrono_format(t.secs, t.nanos, fmt@),
{
    chrono::DateTime::<chrono::Utc>::from_timestamp(t.secs, t.nanos).map(
        |dt| dt.format(fmt).to_string(),
    ).unwrap_or_default()
}

/// The partition name of an instant: empty without partitioning, otherwise
/// the instant formatted as `%Y-%m-%d` (daily), `%Y-%m-%d-%H` (hourly) or
/// `%Y-%m` (monthly).
pub open spec fn partition_name_spec(t: UtcTimestamp, strategy: PartitionStrategy) -> Seq<char> {
    match strategy {
        PartitionStrategy::Unpartitioned => Seq::empty(),
        PartitionStrategy::Daily => chrono_format(t.secs, t.nanos, "%Y-%m-%d"@),
        PartitionStrategy::Hourly => chrono_format(t.secs, t.nanos, "%Y-%m-%d-%H"@),
        PartitionStrategy::Monthly => chrono_format(t.secs, t.nanos, "%Y-%m"@),
    }
}

/// Formats an instant into its deterministic partition directory name.
pub fn format_partition_name(dt: &UtcTimestamp, strategy: &PartitionStrategy) -> (r: String)
    requires
        chrono_valid_instant(dt.secs, dt.nanos),
    ensures
        r@ == partition_name_spec(*dt, *strategy),
{
    match strategy {
        PartitionStrategy::Unpartitioned => string_from_chars(&[]),
        PartitionStrategy::Daily => format_instant(dt, "%Y-%m-%d"),
        PartitionStrategy::Hourly => format_instant(dt, "%Y-%m-%d-%H"),
        PartitionStrategy::Monthly => format_instant(dt, "%Y-%m"),
    }
}

// ---------------------------------------------------------------------------
// Resolving a document's partition
// ---------------------------------------------------------------------------

/// Why a document's partition could not be resolved.
#[derive(Debug)]
pub enum PartitionError {
    /// The timestamp field (named here) is missing or neither a string nor
    /// a number.
    InvalidTimestamp(String),
    /// The timestamp could not be turned into an instant.
    ParseError(String),
}

/// The instant a timestamp value stands for, or the reason it stands for
/// none; `None` for values that are neither strings nor numbers. Strings
/// are read as RFC 3339 first and then as chrono's own date-time syntax;
/// integers are Unix seconds; other numbers are truncated to whole seconds.
pub open spec fn timestamp_instant(v: JsonValue) -> Option<Result<UtcTimestamp, Seq<char>>> {
    match v {
        JsonValue::String(s) => Some(
            match chrono_parse_rfc3339(s@) {
                Ok(t) => Ok(t),
                Err(_) => chrono_parse_utc(s@),
            },
        ),
        JsonValue::Number(n) => Some(
            match n.spec_as_i64() {
                Some(secs) => if chrono_valid_instant(secs, 0) {
                    Ok(UtcTimestamp { secs, nanos: 0 })
                } else {
                    Err("invalid unix timestamp"@)
                },
                None => {
                    let secs = n.spec_as_f64_truncated();
                    if chrono_valid_instant(secs, 0) {
                        Ok(UtcTimestamp { secs, nanos: 0 })
                    } else {
                        Err("invalid unix timestamp float"@)
                    }
                },
            },
        ),
        _ => None,
    }
}

/// The instant of a timestamp value (see [`timestamp_instant`]).
fn instant_of(v: &JsonValue) -> (r: Option<Result<UtcTimestamp, String>>)
    ensures
        match timestamp_instant(*v) {
            None => r is None,
            Some(Ok(t)) => r == Some(Ok::<UtcTimestamp, String>(t)) && chrono_valid_instant(
                t.secs,
                t.nanos,
            ),
            Some(Err(m)) => r matches Some(Err(e)) && e@ == m,
        },
{
    match v {
        JsonValue::String(s) => match rfc3339_to_utc(s.as_str()) {
            Ok(t) => Some(Ok(t)),
            Err(_) => Some(utc_from_str(s.as_str())),
        },
        JsonValue::Number(n) => match n.as_i64() {
            Some(secs) => match utc_from_unix_seconds(secs) {
                Some(t) => Some(Ok(t)),
                None => Some(Err(owned("invalid unix timestamp"))),
            },
            None => match utc_from_unix_seconds(n.as_f64_truncated()) {
                Some(t) => Some(Ok(t)),
                None => Some(Err(owned("invalid unix timestamp float"))),
            },
        },
        _ => None,
    }
}

/// Resolves the partition directory name of a document: `None` when the
/// index is not partitioned, otherwise the name of the partition its
/// timestamp field falls into.
pub fn resolve_partition(def: &IndexDefinition, document: &JsonValue) -> (r: Result<
    Option<String>,
    PartitionError,
>)
    ensures
        def.partition == PartitionStrategy::Unpartitioned ==> r == Ok::<
            Option<String>,
            PartitionError,
        >(None),
        def.partition != PartitionStrategy::Unpartitioned ==> match get_member(
            *document,
            def.timestamp_field@,
        ) {
            None => r == Err::<Option<String>, PartitionError>(
                PartitionError::InvalidTimestamp(def.timestamp_field),
            ),
            Some(v) => match timestamp_instant(v) {
                None => r == Err::<Option<String>, PartitionError>(
                    PartitionError::InvalidTimestamp(def.timestamp_field),
                ),
                Some(Err(m)) => r matches Err(PartitionError::ParseError(e)) && e@ == m,
                Some(Ok(t)) => r matches Ok(Some(name)) && name@ == partition_name_spec(
                    t,
                    def.partition,
                ),
            },
        },
{
    if def.partition == PartitionStrategy::Unpartitioned {
        return Ok(None);
    }
    let v = match document.get(def.timestamp_field.as_str()) {
        Some(v) => v,
        None => {
            return Err(PartitionError::InvalidTimestamp(def.timestamp_field.clone()));
        },
    };
    let dt = match instant_of(v) {
        None => {
            return Err(PartitionError::InvalidTimestamp(def.timestamp_field.clone()));
        },
        Some(Err(e)) => {
            return Err(PartitionError::ParseError(e));
        },
        Some(Ok(t)) => t,
    };
    Ok(Some(format_partition_name(&dt, &def.partition)))
}

// ---------------------------------------------------------------------------
// Paths
// ---------------------------------------------------------------------------

/// `PathBuf::push` on Unix: an absolute `p` replaces the path; otherwise
/// `p` is appended, after a `/` when the path is non-empty and does not end
/// with one.
pub open spec fn path_push(base: Seq<char>, p: Seq<char>) -> Seq<char> {
    if p.len() > 0 && p[0] == '/' {
        p
    } else if base.len() > 0 && base.last() != '/' {
        base + seq!['/'] + p
    } else {
        base + p
    }
}

/// `PathBuf::push` on Unix for paths held as strings.
pub fn push_path(base: &mut Vec<char>, p: &str)
    ensures
        final(base)@ == path_push(old(base)@, p@),
{
    let pc = chars_of(p);
    if pc.len() > 0 && pc[0] == '/' {
        *base = pc;
        return;
    }
    if base.len() > 0 && base[base.len() - 1] != '/' {
        base.push('/');
    }
    let mut i: usize = 0;
    let ghost start = base@;
    while i < pc.len()
        invariant
            i <= pc@.len(),
            pc@ == p@,
            base@ == start + pc@.take(i as int),
        decreases pc@.len() - i,
    {
        base.push(pc[i]);
        assert(pc@.take(i + 1) =~= pc@.take(i as int).push(pc@[i as int]));
        assert(start + pc@.take(i + 1) =~= (start + pc@.take(i as int)).push(pc@[i as int]));
        i = i + 1;
    }
    assert(pc@.take(pc@.len() as int) =~= pc@);
    assert(final(base)@ =~= path_push(old(base)@, p@));
}

/// The path of a partition directory:
/// `<base>/indexes/<index>/segments/<partition or "default">`.
pub open spec fn partition_path_spec(
    base_dir: Seq<char>,
    index_name: Seq<char>,
    partition: Option<Seq<char>>,
) -> Seq<char> {
    let p = path_push(path_push(path_push(base_dir, "indexes"@), index_name), "segments"@);
    match partition {
        Some(part) => path_push(p, part),
        None => path_push(p, "default"@),
    }
}

/// Builds the path of the partition directory of an index; an index
/// without partitioning uses the `default` partition.
pub fn get_partition_path(base_dir: &str, index_name: &str, partition: Option<&str>) -> (r: String)
    ensures
        r@ == partition_path_spec(
            base_dir@,
            index_name@,
            match partition {
                Some(p) => Some(p@),
                None => None,
            },
        ),
{
    let mut path = chars_of(base_dir);
    push_path(&mut path, "indexes");
    push_path(&mut path, index_name);
    push_path(&mut path, "segments");
    match partition {
        Some(p) => push_path(&mut path, p),
        None => push_path(&mut path, "default"),
    }
    string_from_chars(path.as_slice())
}

/// The directory of an index: `<base>/indexes/<index>`.
pub fn index_path(base_dir: &str, index_name: &str) -> (r: String)
    ensures
        r@ == path_push(path_push(base_dir@, "indexes"@), index_name@),
{
    let mut path = chars_of(base_dir);
    push_path(&mut path, "indexes");
    push_path(&mut path, index_name);
    string_from_chars(path.as_slice())
}

impl PartitionError {
    /// The error's message.
    pub fn message(&self) -> (r: String)
        ensures
            r@ == match self {
                PartitionError::InvalidTimestamp(f) => "timestamp field '"@ + f@
                    + "' missing or invalid in document"@,
                PartitionError::ParseError(m) => "failed to parse timestamp: "@ + m@,
            },
    {
        match self {
            PartitionError::InvalidTimestamp(f) => concat(
                concat("timestamp field '", f.as_str()).as_str(),
                "' missing or invalid in document",
            ),
            PartitionError::ParseError(m) => concat("failed to parse timestamp: ", m.as_str()),
        }
    }
}

} // verus!
