//! Schema rules that every index definition must satisfy.
use vstd::prelude::*;

use crate::schema::definition::{declares_field, find_field, IndexDefinition, PartitionStrategy};
use crate::text::{chars_of, chars_slice, concat, parse_u64, parse_u64_spec};

verus! {

/// Why an index definition was refused.
#[derive(Debug)]
pub enum ValidationError {
    /// Partitioning is enabled but the timestamp field (named here) is not
    /// declared.
    MissingTimestampField(String),
    /// The retention value (given here) is not a number followed by a unit.
    InvalidRetentionFormat(String),
}

/// Whether a retention string can be split before its last byte: it is
/// empty or its last character is ASCII.
pub open spec fn retention_splittable(s: Seq<char>) -> bool {
    s.len() == 0 || (s.last() as u32) < 0x80
}

/// The case-sensitive retention units: seconds, minutes, hours, days,
/// weeks, months, years.
pub open spec fn is_retention_unit(c: char) -> bool {
    c == 's' || c == 'm' || c == 'h' || c == 'd' || c == 'w' || c == 'M' || c == 'y'
}

/// A retention value: a non-negative decimal number (`u64`) followed by
/// one unit character.
pub open spec fn valid_retention(s: Seq<char>) -> bool {
    s.len() > 0 && parse_u64_spec(s.drop_last()) is Some && is_retention_unit(s.last())
}

/// The result of checking a definition: the first rule it breaks, if any.
pub open spec fn validation_outcome(def: IndexDefinition) -> Result<(), ValidationError> {
    if def.partition != PartitionStrategy::Unpartitioned && !declares_field(
        def.fields@,
        def.timestamp_field@,
    ) {
        Err(ValidationError::MissingTimestampField(def.timestamp_field))
    } else {
        match def.retention {
            Some(r) => if valid_retention(r@) {
                Ok(())
            } else {
                Err(ValidationError::InvalidRetentionFormat(r))
            },
            None => Ok(()),
        }
    }
}

/// Whether a retention string strictly follows the number + unit format.
pub fn is_valid_retention(retention: &str) -> (r: bool)
    requires
        retention_splittable(retention@),
    ensures
        r == valid_retention(retention@),
{
    let cs = chars_of(retention);
    if cs.len() == 0 {
        return false;
    }
    let n = cs.len() - 1;
    let unit = cs[n];
    let num = chars_slice(cs.as_slice(), 0, n);
    assert(num@ =~= retention@.drop_last());
    let is_unit = unit == 's' || unit == 'm' || unit == 'h' || unit == 'd' || unit == 'w' || unit
        == 'M' || unit == 'y';
    parse_u64(num.as_slice()).is_some() && is_unit
}

/// Validates an index definition: when partitioning is enabled the
/// timestamp field must be declared, and a retention value must follow the
/// number + unit format.
pub fn validate_schema(def: &IndexDefinition) -> (r: Result<(), ValidationError>)
    requires
        def.retention matches Some(ret) ==> retention_splittable(ret@),
    ensures
        r == validation_outcome(*def),
{
    if def.partition != PartitionStrategy::Unpartitioned && find_field(
        &def.fields,
        def.timestamp_field.as_str(),
    ).is_none() {
        return Err(ValidationError::MissingTimestampField(def.timestamp_field.clone()));
    }
    match &def.retention {
        Some(ret) => {
            if !is_valid_retention(ret.as_str()) {
                return Err(ValidationError::InvalidRetentionFormat(ret.clone()));
            }
        },
        None => {},
    }
    Ok(())
}

impl ValidationError {
    /// The error's message.
    pub fn message(&self) -> (r: String)
        ensures
            r@ == match self {
                ValidationError::MissingTimestampField(f) => "timestamp field '"@ + f@
                    + "' is required for partitioning but missing from fields"@,
                ValidationError::InvalidRetentionFormat(v) => "retention format invalid: "@ + v@,
            },
    {
        match self {
            ValidationError::MissingTimestampField(f) => concat(
                concat("timestamp field '", f.as_str()).as_str(),
                "' is required for partitioning but missing from fields",
            ),
            ValidationError::InvalidRetentionFormat(v) => concat("retention format invalid: ", v.as_str()),
        }
    }
}

} // verus!
