//! Validation of incoming documents against an index definition.
use vstd::prelude::*;

use crate::json::{
    JsonNumber,
    find_entry, has_key, keys_unique, lemma_unique_index, lookup, view_entries, view_value, Json,
    JsonValue,
};
use crate::schema::definition::{
    declares_field, field_index, field_names_unique, find_field, FieldDefinition, FieldType,
    IndexDefinition, SchemaMode,
};
use crate::text::{concat, owned, str_eq};

verus! {

/// Why a document was refused.
#[derive(Debug)]
pub enum IngestionValidationError {
    /// The document is not a JSON object.
    NotAnObject,
    /// The document holds a field (named here) that a strict index does not
    /// declare.
    UnknownField(String),
    /// A field (named here) that is not optional is missing or null.
    MissingRequiredField(String),
    /// A field's value does not have the declared type.
    TypeMismatch { field: String, expected_type: FieldType },
}

/// `"_source"`, the key under which the original document is kept.
pub open spec fn source_key() -> Seq<char> {
    seq!['_', 's', 'o', 'u', 'r', 'c', 'e']
}

/// A document key is mapped when the definition declares it, or when it is
/// `_source`.
pub open spec fn is_mapped(fields: Seq<(String, FieldDefinition)>, key: Seq<char>) -> bool {
    declares_field(fields, key) || key == source_key()
}

/// The entries whose keys are mapped, in order.
pub open spec fn mapped_entries(
    fields: Seq<(String, FieldDefinition)>,
    entries: Seq<(String, JsonValue)>,
) -> Seq<(String, JsonValue)>
    decreases entries.len(),
{
    if entries.len() == 0 {
        Seq::empty()
    } else {
        let rest = mapped_entries(fields, entries.drop_last());
        if is_mapped(fields, entries.last().0@) {
            rest.push(entries.last())
        } else {
            rest
        }
    }
}

/// Whether some entry's key is not mapped.
pub open spec fn has_unmapped(
    fields: Seq<(String, FieldDefinition)>,
    entries: Seq<(String, JsonValue)>,
) -> bool {
    exists|i: int| 0 <= i < entries.len() && !is_mapped(fields, #[trigger] entries[i].0@)
}

/// The first entry whose key is not mapped (meaningful when
/// `has_unmapped`).
pub open spec fn first_unmapped(
    fields: Seq<(String, FieldDefinition)>,
    entries: Seq<(String, JsonValue)>,
) -> int {
    choose|i: int|
        0 <= i < entries.len() && !is_mapped(fields, #[trigger] entries[i].0@) && forall|j: int|
            0 <= j < i ==> is_mapped(fields, #[trigger] entries[j].0@)
}

/// The entries that remain after the schema mode has been applied.
pub open spec fn kept_entries(def: IndexDefinition, entries: Seq<(String, JsonValue)>) -> Seq<
    (String, JsonValue),
> {
    if def.mode == SchemaMode::DropUnmapped {
        mapped_entries(def.fields@, entries)
    } else {
        entries
    }
}

/// Whether a non-null value has the declared type: strings for text and
/// keywords, integers for integers, numbers for floats, booleans for
/// booleans, strings or numbers for datetimes, strings or arrays for bytes.
pub open spec fn type_matches(t: FieldType, v: JsonValue) -> bool {
    match t {
        FieldType::Text | FieldType::Keyword => v is String,
        FieldType::Integer => v.spec_is_i64() || v.spec_is_u64(),
        FieldType::Float => v is Number,
        FieldType::Boolean => v is Bool,
        FieldType::Datetime => v is String || v is Number,
        FieldType::Bytes => v is String || v is Array,
    }
}

/// The error that a declared field raises given its value in the document,
/// if any: a null or missing value is refused unless the field is optional
/// (or, when missing, has a default); a present value must have the
/// declared type.
pub open spec fn field_error(name: String, fd: FieldDefinition, value: Option<JsonValue>) -> Option<
    IngestionValidationError,
> {
    match value {
        Some(v) => if v is Null {
            if !fd.optional {
                Some(IngestionValidationError::MissingRequiredField(name))
            } else {
                None
            }
        } else if !type_matches(fd.field_type, v) {
            Some(IngestionValidationError::TypeMismatch { field: name, expected_type: fd.field_type })
        } else {
            None
        },
        None => if fd.default is None && !fd.optional {
            Some(IngestionValidationError::MissingRequiredField(name))
        } else {
            None
        },
    }
}

/// The error raised by the `j`-th declared field against `kept`.
pub open spec fn field_error_at(
    fields: Seq<(String, FieldDefinition)>,
    kept: Seq<(String, JsonValue)>,
    j: int,
) -> Option<IngestionValidationError> {
    field_error(fields[j].0, fields[j].1, lookup(kept, fields[j].0@))
}

/// Whether some declared field raises an error.
pub open spec fn has_field_error(
    fields: Seq<(String, FieldDefinition)>,
    kept: Seq<(String, JsonValue)>,
) -> bool {
    exists|j: int| 0 <= j < fields.len() && (#[trigger] field_error_at(fields, kept, j)) is Some
}

/// The first declared field that raises an error (meaningful when
/// `has_field_error`).
pub open spec fn first_field_error(
    fields: Seq<(String, FieldDefinition)>,
    kept: Seq<(String, JsonValue)>,
) -> int {
    choose|j: int|
        0 <= j < fields.len() && (#[trigger] field_error_at(fields, kept, j)) is Some && forall|
            k: int,
        |
            0 <= k < j ==> (#[trigger] field_error_at(fields, kept, k)) is None
}

/// The entries added for the first `n` declared fields: each field that is
/// missing from `kept` and has a default is added with that default, in
/// declaration order.
pub open spec fn default_entries(
    fields: Seq<(String, FieldDefinition)>,
    kept: Seq<(String, JsonValue)>,
    n: nat,
) -> Seq<(Seq<char>, Json)>
    decreases n,
{
    if n == 0 || n > fields.len() {
        Seq::empty()
    } else {
        let prev = default_entries(fields, kept, (n - 1) as nat);
        let f = fields[n - 1];
        if !has_key(kept, f.0@) && f.1.default is Some {
            prev.push((f.0@, view_value(f.1.default.unwrap())))
        } else {
            prev
        }
    }
}

/// The outcome of validating a document with the given entries.
pub open spec fn object_outcome(
    def: IndexDefinition,
    entries: Seq<(String, JsonValue)>,
    r: Result<JsonValue, IngestionValidationError>,
) -> bool {
    let fields = def.fields@;
    if def.mode == SchemaMode::Strict && has_unmapped(fields, entries) {
        r == Err::<JsonValue, IngestionValidationError>(
            IngestionValidationError::UnknownField(entries[first_unmapped(fields, entries)].0),
        )
    } else {
        let kept = kept_entries(def, entries);
        if has_field_error(fields, kept) {
            r == Err::<JsonValue, IngestionValidationError>(
                field_error_at(fields, kept, first_field_error(fields, kept)).unwrap(),
            )
        } else {
            r matches Ok(v) && view_value(v) == Json::Object(
                view_entries(kept, kept.len()) + default_entries(fields, kept, fields.len()),
            )
        }
    }
}

proof fn lemma_view_entries_prefix(a: Seq<(String, JsonValue)>, b: Seq<(String, JsonValue)>, n: nat)
    requires
        n <= a.len(),
        n <= b.len(),
        a.take(n as int) == b.take(n as int),
    ensures
        view_entries(a, n) == view_entries(b, n),
    decreases n,
{
    if n > 0 {
        assert(a.take(n - 1) =~= a.take(n as int).take(n - 1));
        assert(b.take(n - 1) =~= b.take(n as int).take(n - 1));
        lemma_view_entries_prefix(a, b, (n - 1) as nat);
        assert(a[n - 1] == a.take(n as int)[n - 1]);
        assert(b[n - 1] == b.take(n as int)[n - 1]);
    }
}

proof fn lemma_view_entries_push(a: Seq<(String, JsonValue)>, e: (String, JsonValue))
    ensures
        view_entries(a.push(e), a.len() + 1) == view_entries(a, a.len()).push(
            (e.0@, view_value(e.1)),
        ),
{
    assert(a.push(e).take(a.len() as int) =~= a.take(a.len() as int));
    lemma_view_entries_prefix(a.push(e), a, a.len());
}

proof fn lemma_mapped_entries_step(
    fields: Seq<(String, FieldDefinition)>,
    entries: Seq<(String, JsonValue)>,
    i: int,
)
    requires
        0 <= i < entries.len(),
    ensures
        mapped_entries(fields, entries.take(i + 1)) == if is_mapped(fields, entries[i].0@) {
            mapped_entries(fields, entries.take(i)).push(entries[i])
        } else {
            mapped_entries(fields, entries.take(i))
        },
{
    assert(entries.take(i + 1).drop_last() =~= entries.take(i));
}

proof fn lemma_mapped_entries_sub(
    fields: Seq<(String, FieldDefinition)>,
    entries: Seq<(String, JsonValue)>,
)
    ensures
        forall|k: int|
            0 <= k < mapped_entries(fields, entries).len() ==> exists|i: int|
                0 <= i < entries.len() && #[trigger] mapped_entries(fields, entries)[k]
                    == entries[i],
        mapped_entries(fields, entries).len() <= entries.len(),
    decreases entries.len(),
{
    if entries.len() > 0 {
        lemma_mapped_entries_sub(fields, entries.drop_last());
        let rest = mapped_entries(fields, entries.drop_last());
        assert forall|k: int|
            0 <= k < mapped_entries(fields, entries).len() implies exists|i: int|
                0 <= i < entries.len() && #[trigger] mapped_entries(fields, entries)[k]
                    == entries[i] by {
            if k < rest.len() {
                let i = choose|i: int|
                    0 <= i < entries.drop_last().len() && rest[k] == entries.drop_last()[i];
                assert(entries.drop_last()[i] == entries[i]);
            } else {
                assert(mapped_entries(fields, entries)[k] == entries[entries.len() - 1]);
            }
        }
    }
}

/// Keeping a subsequence of entries (in order) keeps keys unique.
proof fn lemma_mapped_entries_unique(
    fields: Seq<(String, FieldDefinition)>,
    entries: Seq<(String, JsonValue)>,
)
    requires
        keys_unique(entries),
    ensures
        keys_unique(mapped_entries(fields, entries)),
    decreases entries.len(),
{
    if entries.len() > 0 {
        let init = entries.drop_last();
        assert(keys_unique(init)) by {
            assert forall|i: int, j: int|
                0 <= i < init.len() && 0 <= j < init.len() && i != j implies init[i].0@
                != init[j].0@ by {
                assert(init[i] == entries[i]);
                assert(init[j] == entries[j]);
            }
        }
        lemma_mapped_entries_unique(fields, init);
        lemma_mapped_entries_sub(fields, init);
        let rest = mapped_entries(fields, init);
        if is_mapped(fields, entries.last().0@) {
            let m = rest.push(entries.last());
            assert forall|i: int, j: int|
                0 <= i < m.len() && 0 <= j < m.len() && i != j implies m[i].0@ != m[j].0@ by {
                if i < rest.len() && j < rest.len() {
                    assert(m[i] == rest[i]);
                    assert(m[j] == rest[j]);
                } else if i < rest.len() {
                    assert(m[i] == rest[i]);
                    let a = choose|a: int| 0 <= a < init.len() && #[trigger] rest[i] == init[a];
                    assert(init[a] == entries[a]);
                } else {
                    assert(m[j] == rest[j]);
                    let a = choose|a: int| 0 <= a < init.len() && #[trigger] rest[j] == init[a];
                    assert(init[a] == entries[a]);
                }
            }
        }
    }
}


/// Validates a JSON document against an index definition. Undeclared fields
/// are refused (`strict`), dropped (`drop_unmapped`) or kept (`dynamic`);
/// `_source` is always accepted. Then every declared field is checked in
/// declaration order: a missing field gets its default when it has one, a
/// missing or null field that is not optional is refused, and a present
/// value must have the declared type. The first violation is reported.
#[verifier::rlimit(50)]
pub fn validate_and_process_document(def: &IndexDefinition, document: JsonValue) -> (r: Result<
    JsonValue,
    IngestionValidationError,
>)
    requires
        def.wf(),
        document matches JsonValue::Object(entries) ==> keys_unique(entries@),
    ensures
        !(document is Object) ==> r == Err::<JsonValue, IngestionValidationError>(
            IngestionValidationError::NotAnObject,
        ),
        document matches JsonValue::Object(entries) ==> object_outcome(*def, entries@, r),
        r matches Ok(v) ==> v matches JsonValue::Object(out) && keys_unique(out@),
{
    let entries = match document {
        JsonValue::Object(m) => m,
        _ => {
            return Err(IngestionValidationError::NotAnObject);
        },
    };
    let ghost original = entries@;
    let fields = &def.fields;

    // 1. Schema mode: refuse or drop keys that are not mapped.
    if def.mode == SchemaMode::Strict {
        let mut i: usize = 0;
        while i < entries.len()
            invariant
                document == JsonValue::Object(entries),
                fields == &def.fields,
                def.mode == SchemaMode::Strict,
                i <= entries@.len(),
                forall|j: int| 0 <= j < i ==> is_mapped(fields@, #[trigger] entries@[j].0@),
            decreases entries@.len() - i,
        {
            if !key_mapped(fields, &entries[i].0) {
                let key = entries[i].0.clone();
                proof {
                    lemma_first_unmapped(fields@, entries@, i as int);
                }
                return Err(IngestionValidationError::UnknownField(key));
            }
            i = i + 1;
        }
        assert(!has_unmapped(fields@, entries@));
    }
    let mut obj: Vec<(String, JsonValue)> = Vec::new();
    if def.mode == SchemaMode::DropUnmapped {
        for e in it: entries.into_iter()
            invariant
                it.seq() == original,
                obj@ == mapped_entries(fields@, original.take(it.index() as int)),
        {
            proof {
                lemma_mapped_entries_step(fields@, original, it.index() as int);
            }
            if key_mapped(fields, &e.0) {
                obj.push(e);
            }
        }
        assert(original.take(original.len() as int) =~= original);
        proof {
            lemma_mapped_entries_unique(fields@, original);
        }
    } else {
        obj = entries;
    }
    let ghost kept = obj@;
    assert(kept == kept_entries(*def, original));
    assert(keys_unique(kept));

    // 2. Declared fields: types, defaults and optionality.
    let mut j: usize = 0;
    while j < fields.len()
        invariant
            def.wf(),
            fields == &def.fields,
            document matches JsonValue::Object(e) && e@ == original,
            kept == kept_entries(*def, original),
            def.mode == SchemaMode::Strict ==> !has_unmapped(fields@, original),
            j <= fields@.len(),
            keys_unique(obj@),
            obj@.len() >= kept.len(),
            obj@.take(kept.len() as int) == kept,
            view_entries(obj@, obj@.len()) == view_entries(kept, kept.len()) + default_entries(
                fields@,
                kept,
                j as nat,
            ),
            forall|t: int| kept.len() <= t < obj@.len() ==> exists|k: int|
                0 <= k < j && #[trigger] obj@[t].0@ == fields@[k].0@,
            forall|k: int| 0 <= k < j ==> (#[trigger] field_error_at(fields@, kept, k)) is None,
        decreases fields@.len() - j,
    {
        let name = &fields[j].0;
        let fd = &fields[j].1;
        let ghost obj_before = obj@;
        proof {
            // The lookup in the growing object agrees with the lookup in `kept`:
            // the appended entries carry other declared names.
            lemma_lookup_in_extended(obj@, kept, name@, fields@, j as int);
        }
        let err = check_field(&mut obj, name, fd);
        match err {
            Some(e) => {
                proof {
                    lemma_first_field_error(fields@, kept, j as int);
                }
                return Err(e);
            },
            None => {},
        }
        proof {
            if obj@ != obj_before {
                lemma_view_entries_push(obj_before, obj@.last());
                assert(obj_before.push(obj@.last()) == obj@);
                assert(obj@.take(kept.len() as int) =~= obj_before.take(kept.len() as int));
            }
        }
        proof {
            assert forall|t: int| kept.len() <= t < obj@.len() implies exists|k: int|
                0 <= k < j + 1 && #[trigger] obj@[t].0@ == fields@[k].0@ by {
                if t < obj_before.len() {
                    assert(obj@[t] == obj_before[t]);
                    let k = choose|k: int| 0 <= k < j && #[trigger] obj_before[t].0@ == fields@[k].0@;
                    assert(obj@[t].0@ == fields@[k].0@);
                } else {
                    assert(obj@[t].0@ == fields@[j as int].0@);
                }
            }
        }
        j = j + 1;
    }
    proof {
        assert(!has_field_error(fields@, kept));
    }
    Ok(JsonValue::Object(obj))
}

/// Checks one declared field against the object under construction and
/// adds its default when it is missing.
fn check_field(obj: &mut Vec<(String, JsonValue)>, name: &String, fd: &FieldDefinition) -> (r:
    Option<IngestionValidationError>)
    requires
        keys_unique(old(obj)@),
    ensures
        r == field_error(*name, *fd, lookup(old(obj)@, name@)),
        keys_unique(final(obj)@),
        r is None && !has_key(old(obj)@, name@) && fd.default is Some ==> final(obj)@.len()
            == old(obj)@.len() + 1 && final(obj)@ == old(obj)@.push(final(obj)@.last())
            && final(obj)@.last().0 == *name && view_value(final(obj)@.last().1) == view_value(
            fd.default.unwrap(),
        ),
        !(r is None && !has_key(old(obj)@, name@) && fd.default is Some) ==> final(obj)@ == old(
            obj,
        )@,
{
    match find_entry(obj, name.as_str()) {
        Some(i) => {
            proof {
                lemma_unique_index(obj@, i as int, name@);
            }
            let val = &obj[i].1;
            if val.is_null() {
                if !fd.optional {
                    return Some(IngestionValidationError::MissingRequiredField(name.clone()));
                }
            } else {
                if !value_matches_type(fd.field_type, val) {
                    return Some(
                        IngestionValidationError::TypeMismatch {
                            field: name.clone(),
                            expected_type: fd.field_type,
                        },
                    );
                }
            }
            None
        },
        None => {
            match &fd.default {
                Some(default_val) => {
                    let key = name.clone();
                    let value = default_val.duplicate();
                    proof {
                        lemma_lookup_push_absent(obj@, (key, value));
                    }
                    obj.push((key, value));
                    None
                },
                None => {
                    if !fd.optional {
                        Some(IngestionValidationError::MissingRequiredField(name.clone()))
                    } else {
                        None
                    }
                },
            }
        },
    }
}

/// Whether a document key is mapped by the definition's fields.
fn key_mapped(fields: &Vec<(String, FieldDefinition)>, key: &String) -> (r: bool)
    ensures
        r == is_mapped(fields@, key@),
{
    let s = "_source";
    proof {
        reveal_strlit("_source");
        assert(s@ =~= source_key());
    }
    find_field(fields, key.as_str()).is_some() || str_eq(key.as_str(), s)
}

/// Whether a non-null value has the declared type.
fn value_matches_type(t: FieldType, v: &JsonValue) -> (r: bool)
    ensures
        r == type_matches(t, *v),
{
    match t {
        FieldType::Text | FieldType::Keyword => v.is_string(),
        FieldType::Integer => v.is_i64() || v.is_u64(),
        FieldType::Float => v.is_number(),
        FieldType::Boolean => v.is_boolean(),
        FieldType::Datetime => v.is_string() || v.is_number(),
        FieldType::Bytes => v.is_string() || v.is_array(),
    }
}

proof fn lemma_first_unmapped(
    fields: Seq<(String, FieldDefinition)>,
    entries: Seq<(String, JsonValue)>,
    i: int,
)
    requires
        0 <= i < entries.len(),
        !is_mapped(fields, entries[i].0@),
        forall|j: int| 0 <= j < i ==> is_mapped(fields, #[trigger] entries[j].0@),
    ensures
        has_unmapped(fields, entries),
        first_unmapped(fields, entries) == i,
{
    assert(has_unmapped(fields, entries));
    let f = first_unmapped(fields, entries);
    if f < i {
        assert(is_mapped(fields, entries[f].0@));
    }
    if f > i {
        assert(is_mapped(fields, entries[i].0@));
    }
}

proof fn lemma_first_field_error(
    fields: Seq<(String, FieldDefinition)>,
    kept: Seq<(String, JsonValue)>,
    j: int,
)
    requires
        0 <= j < fields.len(),
        field_error_at(fields, kept, j) is Some,
        forall|k: int| 0 <= k < j ==> (#[trigger] field_error_at(fields, kept, k)) is None,
    ensures
        has_field_error(fields, kept),
        first_field_error(fields, kept) == j,
{
    let f = first_field_error(fields, kept);
    if f < j {
        assert(field_error_at(fields, kept, f) is None);
    }
    if f > j {
        assert(field_error_at(fields, kept, j) is None);
    }
}

/// Appending an entry whose key is absent keeps keys unique.
proof fn lemma_lookup_push_absent(a: Seq<(String, JsonValue)>, e: (String, JsonValue))
    requires
        keys_unique(a),
        !has_key(a, e.0@),
    ensures
        keys_unique(a.push(e)),
{
    let b = a.push(e);
    assert forall|i: int, j: int|
        0 <= i < b.len() && 0 <= j < b.len() && i != j implies b[i].0@ != b[j].0@ by {
        if i < a.len() && j < a.len() {
            assert(b[i] == a[i]);
            assert(b[j] == a[j]);
        } else if i < a.len() {
            assert(b[i] == a[i]);
        } else {
            assert(b[j] == a[j]);
        }
    }
}

/// The object under construction extends `kept` with entries named after the
/// first `j` declared fields, so the `j`-th field's name is found in it
/// exactly when it is found in `kept`.
proof fn lemma_lookup_in_extended(
    obj: Seq<(String, JsonValue)>,
    kept: Seq<(String, JsonValue)>,
    name: Seq<char>,
    fields: Seq<(String, FieldDefinition)>,
    j: int,
)
    requires
        field_names_unique(fields),
        0 <= j < fields.len(),
        name == fields[j].0@,
        keys_unique(obj),
        obj.len() >= kept.len(),
        obj.take(kept.len() as int) == kept,
        forall|t: int| kept.len() <= t < obj.len() ==> exists|k: int|
            0 <= k < j && #[trigger] obj[t].0@ == fields[k].0@,
    ensures
        has_key(obj, name) == has_key(kept, name),
        lookup(obj, name) == lookup(kept, name),
{
    assert forall|t: int| kept.len() <= t < obj.len() implies obj[t].0@ != name by {
        let k = choose|k: int| 0 <= k < j && #[trigger] obj[t].0@ == fields[k].0@;
        assert(fields[k].0@ != fields[j].0@);
    }
    if has_key(kept, name) {
        let i = choose|i: int| 0 <= i < kept.len() && #[trigger] kept[i].0@ == name;
        assert(obj[i] == kept[i]);
        assert(has_key(obj, name));
    }
    if has_key(obj, name) {
        let i = choose|i: int| 0 <= i < obj.len() && #[trigger] obj[i].0@ == name;
        assert(i < kept.len());
        assert(obj[i] == kept[i]);
        assert(has_key(kept, name));
        lemma_unique_index(obj, i, name);
        // `kept` is a prefix of `obj`, so its keys are unique too.
        assert(keys_unique(kept)) by {
            assert forall|a: int, b: int|
                0 <= a < kept.len() && 0 <= b < kept.len() && a != b implies kept[a].0@
                != kept[b].0@ by {
                assert(obj[a] == kept[a]);
                assert(obj[b] == kept[b]);
            }
        }
        lemma_unique_index(kept, i, name);
    }
}

/// How a field type prints in messages (its variant name).
pub open spec fn field_type_name(t: FieldType) -> Seq<char> {
    match t {
        FieldType::Text => "Text"@,
        FieldType::Keyword => "Keyword"@,
        FieldType::Datetime => "Datetime"@,
        FieldType::Integer => "Integer"@,
        FieldType::Float => "Float"@,
        FieldType::Boolean => "Boolean"@,
        FieldType::Bytes => "Bytes"@,
    }
}

/// The name of a field type, as messages print it.
pub fn field_type_text(t: FieldType) -> (r: &'static str)
    ensures
        r@ == field_type_name(t),
{
    match t {
        FieldType::Text => "Text",
        FieldType::Keyword => "Keyword",
        FieldType::Datetime => "Datetime",
        FieldType::Integer => "Integer",
        FieldType::Float => "Float",
        FieldType::Boolean => "Boolean",
        FieldType::Bytes => "Bytes",
    }
}

impl IngestionValidationError {
    /// The error's message.
    pub fn message(&self) -> (r: String)
        ensures
            r@ == match self {
                IngestionValidationError::NotAnObject => "document must be a json object"@,
                IngestionValidationError::UnknownField(f) => "unknown field '"@ + f@
                    + "' is not allowed in strict mode"@,
                IngestionValidationError::MissingRequiredField(f) => "missing required field '"@
                    + f@ + "'"@,
                IngestionValidationError::TypeMismatch { field, expected_type } =>
                    "type mismatch for field '"@ + field@ + "': expected "@ + field_type_name(
                    *expected_type,
                ),
            },
    {
        match self {
            IngestionValidationError::NotAnObject => owned("document must be a json object"),
            IngestionValidationError::UnknownField(f) => concat(
                concat("unknown field '", f.as_str()).as_str(),
                "' is not allowed in strict mode",
            ),
            IngestionValidationError::MissingRequiredField(f) => concat(
                concat("missing required field '", f.as_str()).as_str(),
                "'",
            ),
            IngestionValidationError::TypeMismatch { field, expected_type } => concat(
                concat(concat("type mismatch for field '", field.as_str()).as_str(), "': expected ").as_str(),
                field_type_text(*expected_type),
            ),
        }
    }
}

/// Which present values each field type takes, by the JSON value's form: an
/// integer field takes every JSON integer, negative ones included, and no
/// other number; a float field takes every number; text and keyword
/// fields take strings; booleans take booleans.
pub proof fn law_field_types_take_their_values(v: JsonValue)
    ensures
        type_matches(FieldType::Integer, v) <==> (v matches JsonValue::Number(n) && !(n is Float)),
        type_matches(FieldType::Float, v) <==> v is Number,
        type_matches(FieldType::Text, v) <==> v is String,
        type_matches(FieldType::Keyword, v) <==> v is String,
        type_matches(FieldType::Boolean, v) <==> v is Bool,
        type_matches(FieldType::Datetime, v) <==> (v is String || v is Number),
        type_matches(FieldType::Bytes, v) <==> (v is String || v is Array),
{
}

/// An integer field given any JSON integer, negative or not, raises no
/// error, whatever else the field declares.
pub proof fn law_integer_field_takes_every_integer(name: String, fd: FieldDefinition, n: JsonNumber)
    requires
        fd.field_type == FieldType::Integer,
        !(n is Float),
    ensures
        field_error(name, fd, Some(JsonValue::Number(n))) is None,
{
}

} // verus!
