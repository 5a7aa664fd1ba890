//! Index definitions: the schema of one logical index, as read from its
//! `.index.yaml` file or from the management API.
use vstd::prelude::*;

use crate::json::{lemma_view_entries_same, view_entries, view_value, Json, JsonValue};
use crate::schema::validation::{validate_schema, retention_splittable, ValidationError};
use crate::text::{chars_eq, chars_of, owned};

verus! {

/// How documents with fields that the definition does not declare are
/// handled.
#[derive(Clone, Copy, Debug, PartialEq, Eq, Structural)]
pub enum SchemaMode {
    /// Reject the document.
    Strict,
    /// Accept the document and drop the undeclared fields.
    DropUnmapped,
    /// Accept the document as it is.
    Dynamic,
}

impl Default for SchemaMode {
    fn default() -> (r: Self)
        ensures
            r == SchemaMode::Dynamic,
    {
        SchemaMode::Dynamic
    }
}

/// The declared time-bucketing strategy of an index.
#[derive(Clone, Copy, Debug, PartialEq, Eq, Structural)]
pub enum PartitionStrategy {
    /// No time bucketing (`none` in definition files).
    Unpartitioned,
    Daily,
    Hourly,
    Monthly,
}

impl Default for PartitionStrategy {
    fn default() -> (r: Self)
        ensures
            r == PartitionStrategy::Unpartitioned,
    {
        PartitionStrategy::Unpartitioned
    }
}

/// Compression of the index segments.
#[derive(Clone, Copy, Debug, PartialEq, Eq, Structural)]
pub enum CompressionOption {
    /// No compression (`none` in definition files).
    Uncompressed,
    Zstd,
    Lz4,
}

impl Default for CompressionOption {
    fn default() -> (r: Self)
        ensures
            r == CompressionOption::Zstd,
    {
        CompressionOption::Zstd
    }
}

/// The type of a declared field.
#[derive(Clone, Copy, Debug, PartialEq, Eq, Structural)]
pub enum FieldType {
    Text,
    Keyword,
    Datetime,
    Integer,
    Float,
    Boolean,
    Bytes,
}

/// One declared field.
pub struct FieldDefinition {
    pub field_type: FieldType,
    pub indexed: bool,
    pub stored: bool,
    pub fast: bool,
    pub optional: bool,
    pub default: Option<JsonValue>,
}

/// The definition of one logical index. `fields` and `settings` are keyed
/// by name; no name occurs twice in either.
pub struct IndexDefinition {
    pub name: String,
    pub description: Option<String>,
    pub timestamp_field: String,
    pub mode: SchemaMode,
    pub partition: PartitionStrategy,
    pub retention: Option<String>,
    pub compression: CompressionOption,
    pub fields: Vec<(String, FieldDefinition)>,
    pub settings: Vec<(String, JsonValue)>,
}

/// The mathematical value of a [`FieldDefinition`].
pub struct FieldDefinitionView {
    pub field_type: FieldType,
    pub indexed: bool,
    pub stored: bool,
    pub fast: bool,
    pub optional: bool,
    pub default: Option<Json>,
}

/// The mathematical value of an [`IndexDefinition`].
pub struct IndexDefinitionView {
    pub name: Seq<char>,
    pub description: Option<Seq<char>>,
    pub timestamp_field: Seq<char>,
    pub mode: SchemaMode,
    pub partition: PartitionStrategy,
    pub retention: Option<Seq<char>>,
    pub compression: CompressionOption,
    pub fields: Seq<(Seq<char>, FieldDefinitionView)>,
    pub settings: Seq<(Seq<char>, Json)>,
}

/// The view of an optional string.
pub open spec fn opt_str_view(s: Option<String>) -> Option<Seq<char>> {
    match s {
        Some(v) => Some(v@),
        None => None,
    }
}

impl View for FieldDefinition {
    type V = FieldDefinitionView;

    open spec fn view(&self) -> FieldDefinitionView {
        FieldDefinitionView {
            field_type: self.field_type,
            indexed: self.indexed,
            stored: self.stored,
            fast: self.fast,
            optional: self.optional,
            default: match self.default {
                Some(d) => Some(view_value(d)),
                None => None,
            },
        }
    }
}

/// The views of a list of named fields.
pub open spec fn fields_view(fields: Seq<(String, FieldDefinition)>) -> Seq<
    (Seq<char>, FieldDefinitionView),
> {
    Seq::new(fields.len(), |i: int| (fields[i].0@, fields[i].1@))
}

impl View for IndexDefinition {
    type V = IndexDefinitionView;

    open spec fn view(&self) -> IndexDefinitionView {
        IndexDefinitionView {
            name: self.name@,
            description: opt_str_view(self.description),
            timestamp_field: self.timestamp_field@,
            mode: self.mode,
            partition: self.partition,
            retention: opt_str_view(self.retention),
            compression: self.compression,
            fields: fields_view(self.fields@),
            settings: view_entries(self.settings@, self.settings@.len()),
        }
    }
}

/// A copy of an optional string.
fn duplicate_opt_string(s: &Option<String>) -> (r: Option<String>)
    ensures
        r == *s,
{
    match s {
        Some(v) => Some(v.clone()),
        None => None,
    }
}

impl FieldDefinition {
    /// A copy of the field definition.
    pub fn duplicate(&self) -> (r: FieldDefinition)
        ensures
            r@ == self@,
    {
        FieldDefinition {
            field_type: self.field_type,
            indexed: self.indexed,
            stored: self.stored,
            fast: self.fast,
            optional: self.optional,
            default: match &self.default {
                Some(d) => Some(d.duplicate()),
                None => None,
            },
        }
    }
}

impl IndexDefinition {
    /// A copy of the index definition.
    pub fn duplicate(&self) -> (r: IndexDefinition)
        ensures
            r@ == self@,
            self.wf() ==> r.wf(),
            r.name == self.name,
            r.retention == self.retention,
            r.timestamp_field == self.timestamp_field,
    {
        let mut fields: Vec<(String, FieldDefinition)> = Vec::new();
        let mut i: usize = 0;
        while i < self.fields.len()
            invariant
                i <= self.fields@.len(),
                fields@.len() == i,
                forall|j: int|
                    0 <= j < i ==> (#[trigger] fields@[j]).0@ == self.fields@[j].0@ && fields@[j].1@
                        == self.fields@[j].1@,
            decreases self.fields@.len() - i,
        {
            fields.push((self.fields[i].0.clone(), self.fields[i].1.duplicate()));
            i = i + 1;
        }
        let mut settings: Vec<(String, JsonValue)> = Vec::new();
        let mut k: usize = 0;
        while k < self.settings.len()
            invariant
                k <= self.settings@.len(),
                settings@.len() == k,
                forall|j: int|
                    0 <= j < k ==> (#[trigger] settings@[j]).0@ == self.settings@[j].0@
                        && view_value(settings@[j].1) == view_value(self.settings@[j].1),
            decreases self.settings@.len() - k,
        {
            settings.push((self.settings[k].0.clone(), self.settings[k].1.duplicate()));
            k = k + 1;
        }
        proof {
            lemma_view_entries_same(settings@, self.settings@, settings@.len());
            assert(fields_view(fields@) =~= fields_view(self.fields@));
        }
        IndexDefinition {
            name: self.name.clone(),
            description: duplicate_opt_string(&self.description),
            timestamp_field: self.timestamp_field.clone(),
            mode: self.mode,
            partition: self.partition,
            retention: duplicate_opt_string(&self.retention),
            compression: self.compression,
            fields,
            settings,
        }
    }
}

impl Clone for IndexDefinition {
    fn clone(&self) -> Self {
        self.duplicate()
    }
}

impl Clone for FieldDefinition {
    fn clone(&self) -> Self {
        self.duplicate()
    }
}

/// Whether no two fields share a name.
pub open spec fn field_names_unique(fields: Seq<(String, FieldDefinition)>) -> bool {
    forall|i: int, j: int|
        0 <= i < fields.len() && 0 <= j < fields.len() && i != j ==> fields[i].0@ != fields[j].0@
}

/// Whether a field named `name` is declared.
pub open spec fn declares_field(fields: Seq<(String, FieldDefinition)>, name: Seq<char>) -> bool {
    exists|i: int| 0 <= i < fields.len() && #[trigger] fields[i].0@ == name
}

/// The position of the field named `name` (meaningful when declared).
pub open spec fn field_index(fields: Seq<(String, FieldDefinition)>, name: Seq<char>) -> int {
    choose|i: int| 0 <= i < fields.len() && #[trigger] fields[i].0@ == name
}

/// `"timestamp"`, the timestamp field of a definition that names none.
pub open spec fn default_timestamp_field_spec() -> Seq<char> {
    seq!['t', 'i', 'm', 'e', 's', 't', 'a', 'm', 'p']
}

/// The timestamp field of a definition that names none.
pub fn default_timestamp_field() -> (r: String)
    ensures
        r@ == default_timestamp_field_spec(),
{
    let s = "timestamp";
    proof {
        reveal_strlit("timestamp");
    }
    owned(s)
}

/// Finds the declared field named `name`.
pub fn find_field(fields: &Vec<(String, FieldDefinition)>, name: &str) -> (r: Option<usize>)
    ensures
        r matches Some(i) ==> i < fields@.len() && fields@[i as int].0@ == name@,
        r is None ==> !declares_field(fields@, name@),
{
    let target = chars_of(name);
    let mut i: usize = 0;
    while i < fields.len()
        invariant
            i <= fields@.len(),
            target@ == name@,
            forall|j: int| 0 <= j < i ==> fields@[j].0@ != name@,
        decreases fields@.len() - i,
    {
        let k = chars_of(fields[i].0.as_str());
        if chars_eq(k.as_slice(), target.as_slice()) {
            return Some(i);
        }
        i = i + 1;
    }
    None
}

impl IndexDefinition {
    /// The definition's structural validity: field names are unique.
    pub open spec fn wf(&self) -> bool {
        field_names_unique(self.fields@)
    }

    /// Checks the definition against the schema rules (see
    /// [`validate_schema`]).
    pub fn validate(&self) -> (r: Result<(), ValidationError>)
        requires
            self.retention matches Some(ret) ==> retention_splittable(ret@),
        ensures
            r == crate::schema::validation::validation_outcome(*self),
    {
        validate_schema(self)
    }
}

} // verus!
