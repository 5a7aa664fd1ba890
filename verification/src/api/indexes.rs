//! Rules of the index-management API and of definition files.
use vstd::prelude::*;

use crate::schema::definition::IndexDefinition;
use crate::text::{
    chars_end_with, chars_eq_ascii_lower, chars_of, concat, ends_with, eq_ascii_lower, owned,
    str_eq,
};

verus! {

/// Whether the management setting enables index management: it is enabled
/// by default and when the setting is `true` in any ASCII case.
pub open spec fn management_enabled_spec(setting: Option<Seq<char>>) -> bool {
    match setting {
        Some(s) => eq_ascii_lower(s, "true"@),
        None => true,
    }
}

/// Whether index creation, update and deletion through the API are
/// enabled, given the value of the management setting (if set).
pub fn management_enabled(setting: Option<&str>) -> (r: bool)
    ensures
        r == management_enabled_spec(match setting {
            Some(s) => Some(s@),
            None => None,
        }),
{
    match setting {
        Some(s) => {
            let sc = chars_of(s);
            let t = chars_of("true");
            chars_eq_ascii_lower(sc.as_slice(), t.as_slice())
        },
        None => true,
    }
}

/// The file name of an index's definition: `<index>.index.yaml`.
pub fn index_definition_file_name(index: &str) -> (r: String)
    ensures
        r@ == index@ + ".index.yaml"@,
{
    concat(index, ".index.yaml")
}

/// Whether a file holds an index definition: its name ends with
/// `.index.yaml` or `.index.yml`.
pub fn is_index_definition_file(file_name: &str) -> (r: bool)
    ensures
        r == (ends_with(file_name@, ".index.yaml"@) || ends_with(file_name@, ".index.yml"@)),
{
    let f = chars_of(file_name);
    let a = chars_of(".index.yaml");
    let b = chars_of(".index.yml");
    chars_end_with(f.as_slice(), a.as_slice()) || chars_end_with(f.as_slice(), b.as_slice())
}

/// Makes a definition submitted for `index` carry that name.
pub fn align_definition_name(def: &mut IndexDefinition, index: &str)
    ensures
        final(def).name@ == index@,
        final(def).fields == old(def).fields,
        final(def).retention == old(def).retention,
        final(def).timestamp_field == old(def).timestamp_field,
        final(def).partition == old(def).partition,
        final(def).mode == old(def).mode,
        final(def).description == old(def).description,
        final(def).compression == old(def).compression,
        final(def).settings == old(def).settings,
{
    if !str_eq(def.name.as_str(), index) {
        def.name = owned(index);
    }
}

} // verus!
