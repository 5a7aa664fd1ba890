//! Turning an index definition into a tantivy schema.
//!
//! The decisions (which tantivy field kind, tokenizer and flags each declared
//! field gets) are made by [`field_layout`]; [`build_schema`] carries them out
//! with tantivy's schema builder and adds the stored `_source` JSON field that
//! holds the original document.
use vstd::prelude::*;

use tantivy::schema::{
    BytesOptions, DateOptions, IndexRecordOption, NumericOptions, Schema, SchemaBuilder,
    TextFieldIndexing, TextOptions,
};

use crate::schema::definition::{
    FieldDefinition, FieldDefinitionView, FieldType, IndexDefinition, SchemaMode,
};

verus! {

// ---------------------------------------------------------------------------
// tantivy's types
// ---------------------------------------------------------------------------

#[verifier::external_type_specification]
#[verifier::external_body]
pub struct ExSchemaBuilder(tantivy::schema::SchemaBuilder);

#[verifier::external_type_specification]
#[verifier::external_body]
pub struct ExSchema(tantivy::schema::Schema);

#[verifier::external_type_specification]
#[verifier::external_body]
pub struct ExTextOptions(tantivy::schema::TextOptions);

#[verifier::external_type_specification]
#[verifier::external_body]
pub struct ExTextFieldIndexing(tantivy::schema::TextFieldIndexing);

#[verifier::external_type_specification]
#[verifier::external_body]
pub struct ExIndexRecordOption(tantivy::schema::IndexRecordOption);

#[verifier::external_type_specification]
#[verifier::external_body]
pub struct ExNumericOptions(tantivy::schema::NumericOptions);

#[verifier::external_type_specification]
#[verifier::external_body]
pub struct ExDateOptions(tantivy::schema::DateOptions);

#[verifier::external_type_specification]
#[verifier::external_body]
pub struct ExBytesOptions(tantivy::schema::BytesOptions);

/// What tantivy holds of one field: its name, its type (as tantivy's
/// schema names it: `text`, `date`, `i64`, `f64`, `bool`, `bytes`,
/// `json_object`), whether it is indexed, stored and fast, and, for an
/// indexed text field, its tokenizer and record option (as tantivy names
/// them: `basic`, `freq`, `position`).
pub type FieldSettings = (Seq<char>, Seq<char>, bool, bool, bool, Option<(Seq<char>, Seq<char>)>);

/// The fields that a schema builder holds, in the order in which they were
/// added.
pub uninterp spec fn builder_fields(b: SchemaBuilder) -> Seq<FieldSettings>;

/// The fields of a schema, in the order in which they were added to its
/// builder.
pub uninterp spec fn schema_fields(s: Schema) -> Seq<FieldSettings>;

/// What text options hold: the indexing (tokenizer and record option),
/// if the field is indexed; whether it is stored; whether it is fast.
pub uninterp spec fn text_settings(o: TextOptions) -> (Option<(Seq<char>, Seq<char>)>, bool, bool);

/// What a text indexing holds: its tokenizer and its record option.
pub uninterp spec fn indexing_settings(ix: TextFieldIndexing) -> (Seq<char>, Seq<char>);

/// The name tantivy gives a record option.
pub uninterp spec fn record_option_name(r: IndexRecordOption) -> Seq<char>;

/// What numeric options hold: indexed, stored, fast.
pub uninterp spec fn numeric_settings(o: NumericOptions) -> (bool, bool, bool);

/// What date options hold: indexed, stored, fast.
pub uninterp spec fn date_settings(o: DateOptions) -> (bool, bool, bool);

/// What bytes options hold: indexed, stored, fast.
pub uninterp spec fn bytes_settings(o: BytesOptions) -> (bool, bool, bool);

/// The names of the fields, in order.
pub open spec fn field_names(fields: Seq<FieldSettings>) -> Seq<Seq<char>> {
    Seq::new(fields.len(), |i: int| fields[i].0)
}

/// tantivy's rule on field names: at least one character, and no leading
/// `-`.
pub open spec fn valid_field_name(name: Seq<char>) -> bool {
    name.len() > 0 && name[0] != '-'
}

/// Whether `name` may be added to a builder holding `fields`: tantivy
/// panics on an invalid name and on a name that is already there.
pub open spec fn can_add(fields: Seq<FieldSettings>, name: Seq<char>) -> bool {
    valid_field_name(name) && !field_names(fields).contains(name)
}

// ---------------------------------------------------------------------------
// The schema builder
// ---------------------------------------------------------------------------

/// `Schema::builder`: a builder that holds no field yet.
#[verifier::external_body]
fn new_schema_builder() -> (b: SchemaBuilder)
    ensures
        builder_fields(b) == Seq::<FieldSettings>::empty(),
{
    Schema::builder()
}

/// `SchemaBuilder::build`: the schema holds the builder's fields, in the
/// same order.
#[verifier::external_body]
fn finish_schema(b: SchemaBuilder) -> (s: Schema)
    ensures
        schema_fields(s) == builder_fields(b),
{
    b.build()
}

/// `SchemaBuilder::add_text_field`: appends a text field named `name`
/// with `options`; it is indexed when the options carry an indexing.
/// tantivy asserts that the name is valid and panics when it is taken.
#[verifier::external_body]
fn add_text_field(b: &mut SchemaBuilder, name: &str, options: TextOptions)
    requires
        can_add(builder_fields(*old(b)), name@),
    ensures
        builder_fields(*final(b)) == builder_fields(*old(b)).push(
            (
                name@,
                "text"@,
                text_settings(options).0 is Some,
                text_settings(options).1,
                text_settings(options).2,
                text_settings(options).0,
            ),
        ),
{
    b.add_text_field(name, options);
}

/// `SchemaBuilder::add_date_field`: appends a date field named `name`.
#[verifier::external_body]
fn add_date_field(b: &mut SchemaBuilder, name: &str, options: DateOptions)
    requires
        can_add(builder_fields(*old(b)), name@),
    ensures
        builder_fields(*final(b)) == builder_fields(*old(b)).push(
            (name@, "date"@, date_settings(options).0, date_settings(options).1, date_settings(options).2, None),
        ),
{
    b.add_date_field(name, options);
}

/// `SchemaBuilder::add_i64_field`: appends an `i64` field named `name`.
#[verifier::external_body]
fn add_i64_field(b: &mut SchemaBuilder, name: &str, options: NumericOptions)
    requires
        can_add(builder_fields(*old(b)), name@),
    ensures
        builder_fields(*final(b)) == builder_fields(*old(b)).push(
            (name@, "i64"@, numeric_settings(options).0, numeric_settings(options).1, numeric_settings(options).2, None),
        ),
{
    b.add_i64_field(name, options);
}

/// `SchemaBuilder::add_f64_field`: appends an `f64` field named `name`.
#[verifier::external_body]
fn add_f64_field(b: &mut SchemaBuilder, name: &str, options: NumericOptions)
    requires
        can_add(builder_fields(*old(b)), name@),
    ensures
        builder_fields(*final(b)) == builder_fields(*old(b)).push(
            (name@, "f64"@, numeric_settings(options).0, numeric_settings(options).1, numeric_settings(options).2, None),
        ),
{
    b.add_f64_field(name, options);
}

/// `SchemaBuilder::add_bool_field`: appends a boolean field named `name`.
#[verifier::external_body]
fn add_bool_field(b: &mut SchemaBuilder, name: &str, options: NumericOptions)
    requires
        can_add(builder_fields(*old(b)), name@),
    ensures
        builder_fields(*final(b)) == builder_fields(*old(b)).push(
            (name@, "bool"@, numeric_settings(options).0, numeric_settings(options).1, numeric_settings(options).2, None),
        ),
{
    b.add_bool_field(name, options);
}

/// `SchemaBuilder::add_bytes_field`: appends a bytes field named `name`.
#[verifier::external_body]
fn add_bytes_field(b: &mut SchemaBuilder, name: &str, options: BytesOptions)
    requires
        can_add(builder_fields(*old(b)), name@),
    ensures
        builder_fields(*final(b)) == builder_fields(*old(b)).push(
            (name@, "bytes"@, bytes_settings(options).0, bytes_settings(options).1, bytes_settings(options).2, None),
        ),
{
    b.add_bytes_field(name, options);
}

/// `SchemaBuilder::add_json_field` with tantivy's `STORED` flag: appends a
/// JSON field named `name` that is stored, not indexed and not fast.
#[verifier::external_body]
fn add_stored_json_field(b: &mut SchemaBuilder, name: &str)
    requires
        can_add(builder_fields(*old(b)), name@),
    ensures
        builder_fields(*final(b)) == builder_fields(*old(b)).push(
            (name@, "json_object"@, false, true, false, None),
        ),
{
    b.add_json_field(name, tantivy::schema::STORED);
}

// ---------------------------------------------------------------------------
// Field options
// ---------------------------------------------------------------------------

/// `TextOptions::default`: a text field that is neither indexed, stored nor
/// fast.
#[verifier::external_body]
fn text_options() -> (r: TextOptions)
    ensures
        text_settings(r) == (None::<(Seq<char>, Seq<char>)>, false, false),
{
    TextOptions::default()
}

/// `TextOptions::set_indexing_options`: the options, indexed as `indexing`
/// says.
#[verifier::external_body]
fn text_set_indexing(o: TextOptions, indexing: TextFieldIndexing) -> (r: TextOptions)
    ensures
        text_settings(r) == (Some(indexing_settings(indexing)), text_settings(o).1, text_settings(o).2),
{
    o.set_indexing_options(indexing)
}

/// `TextOptions::set_stored`: the options, stored.
#[verifier::external_body]
fn text_set_stored(o: TextOptions) -> (r: TextOptions)
    ensures
        text_settings(r) == (text_settings(o).0, true, text_settings(o).2),
{
    o.set_stored()
}

/// `TextOptions::set_fast` without a fast-field tokenizer: the options, fast.
#[verifier::external_body]
fn text_set_fast(o: TextOptions) -> (r: TextOptions)
    ensures
        text_settings(r) == (text_settings(o).0, text_settings(o).1, true),
{
    o.set_fast(None)
}

/// `TextFieldIndexing::default`: the `default` tokenizer and the `basic`
/// record option.
#[verifier::external_body]
fn text_indexing() -> (r: TextFieldIndexing)
    ensures
        indexing_settings(r) == ("default"@, "basic"@),
{
    TextFieldIndexing::default()
}

/// `TextFieldIndexing::set_tokenizer`: the indexing, with the tokenizer
/// registered under `name`.
#[verifier::external_body]
fn indexing_set_tokenizer(ix: TextFieldIndexing, name: &str) -> (r: TextFieldIndexing)
    ensures
        indexing_settings(r) == (name@, indexing_settings(ix).1),
{
    ix.set_tokenizer(name)
}

/// `TextFieldIndexing::set_index_option`: the indexing, recording what
/// `option` says.
#[verifier::external_body]
fn indexing_set_record(ix: TextFieldIndexing, option: IndexRecordOption) -> (r: TextFieldIndexing)
    ensures
        indexing_settings(r) == (indexing_settings(ix).0, record_option_name(option)),
{
    ix.set_index_option(option)
}

/// `IndexRecordOption::Basic`: record the documents a term occurs in.
#[verifier::external_body]
fn record_basic() -> (r: IndexRecordOption)
    ensures
        record_option_name(r) == "basic"@,
{
    IndexRecordOption::Basic
}

/// `IndexRecordOption::WithFreqsAndPositions`: record documents, term
/// frequencies and positions.
#[verifier::external_body]
fn record_with_positions() -> (r: IndexRecordOption)
    ensures
        record_option_name(r) == "position"@,
{
    IndexRecordOption::WithFreqsAndPositions
}

/// `NumericOptions::default`: neither indexed, stored nor fast.
#[verifier::external_body]
fn numeric_options() -> (r: NumericOptions)
    ensures
        numeric_settings(r) == (false, false, false),
{
    NumericOptions::default()
}

/// `NumericOptions::set_indexed`: the options, indexed.
#[verifier::external_body]
fn numeric_set_indexed(o: NumericOptions) -> (r: NumericOptions)
    ensures
        numeric_settings(r) == (true, numeric_settings(o).1, numeric_settings(o).2),
{
    o.set_indexed()
}

/// `NumericOptions::set_stored`: the options, stored.
#[verifier::external_body]
fn numeric_set_stored(o: NumericOptions) -> (r: NumericOptions)
    ensures
        numeric_settings(r) == (numeric_settings(o).0, true, numeric_settings(o).2),
{
    o.set_stored()
}

/// `NumericOptions::set_fast`: the options, fast.
#[verifier::external_body]
fn numeric_set_fast(o: NumericOptions) -> (r: NumericOptions)
    ensures
        numeric_settings(r) == (numeric_settings(o).0, numeric_settings(o).1, true),
{
    o.set_fast()
}

/// `DateOptions::default`: neither indexed, stored nor fast.
#[verifier::external_body]
fn date_options() -> (r: DateOptions)
    ensures
        date_settings(r) == (false, false, false),
{
    DateOptions::default()
}

/// `DateOptions::set_indexed`: the options, indexed.
#[verifier::external_body]
fn date_set_indexed(o: DateOptions) -> (r: DateOptions)
    ensures
        date_settings(r) == (true, date_settings(o).1, date_settings(o).2),
{
    o.set_indexed()
}

/// `DateOptions::set_stored`: the options, stored.
#[verifier::external_body]
fn date_set_stored(o: DateOptions) -> (r: DateOptions)
    ensures
        date_settings(r) == (date_settings(o).0, true, date_settings(o).2),
{
    o.set_stored()
}

/// `DateOptions::set_fast`: the options, fast.
#[verifier::external_body]
fn date_set_fast(o: DateOptions) -> (r: DateOptions)
    ensures
        date_settings(r) == (date_settings(o).0, date_settings(o).1, true),
{
    o.set_fast()
}

/// `BytesOptions::default`: neither indexed, stored nor fast.
#[verifier::external_body]
fn bytes_options() -> (r: BytesOptions)
    ensures
        bytes_settings(r) == (false, false, false),
{
    BytesOptions::default()
}

/// `BytesOptions::set_indexed`: the options, indexed.
#[verifier::external_body]
fn bytes_set_indexed(o: BytesOptions) -> (r: BytesOptions)
    ensures
        bytes_settings(r) == (true, bytes_settings(o).1, bytes_settings(o).2),
{
    o.set_indexed()
}

/// `BytesOptions::set_stored`: the options, stored.
#[verifier::external_body]
fn bytes_set_stored(o: BytesOptions) -> (r: BytesOptions)
    ensures
        bytes_settings(r) == (bytes_settings(o).0, true, bytes_settings(o).2),
{
    o.set_stored()
}

/// `BytesOptions::set_fast`: the options, fast.
#[verifier::external_body]
fn bytes_set_fast(o: BytesOptions) -> (r: BytesOptions)
    ensures
        bytes_settings(r) == (bytes_settings(o).0, bytes_settings(o).1, true),
{
    o.set_fast()
}

// ---------------------------------------------------------------------------
// Layout decisions
// ---------------------------------------------------------------------------

/// The kind of tantivy field that a declared field becomes.
#[derive(Clone, Copy, Debug, PartialEq, Eq, Structural)]
pub enum TantivyKind {
    Text,
    Date,
    I64,
    F64,
    Bool,
    Bytes,
}

/// How an indexed text field is split into terms.
#[derive(Clone, Copy, Debug, PartialEq, Eq, Structural)]
pub enum Tokenization {
    /// The `default` tokenizer, recording frequencies and positions
    /// (full-text search).
    FullText,
    /// The `raw` tokenizer (one term per value), recording documents only.
    Exact,
}

/// What one declared field becomes in the tantivy schema.
#[derive(Clone, Copy, Debug, PartialEq, Eq, Structural)]
pub struct FieldLayout {
    pub kind: TantivyKind,
    /// Meaningful for text fields only.
    pub tokenization: Tokenization,
    pub indexed: bool,
    pub stored: bool,
    pub fast: bool,
}

/// The layout of a declared field: text is full-text, keyword is exact
/// text, the other types map one for one; the three flags are the
/// declaration's.
pub open spec fn layout_of(f: FieldDefinitionView) -> FieldLayout {
    FieldLayout {
        kind: match f.field_type {
            FieldType::Text => TantivyKind::Text,
            FieldType::Keyword => TantivyKind::Text,
            FieldType::Datetime => TantivyKind::Date,
            FieldType::Integer => TantivyKind::I64,
            FieldType::Float => TantivyKind::F64,
            FieldType::Boolean => TantivyKind::Bool,
            FieldType::Bytes => TantivyKind::Bytes,
        },
        tokenization: if f.field_type == FieldType::Keyword {
            Tokenization::Exact
        } else {
            Tokenization::FullText
        },
        indexed: f.indexed,
        stored: f.stored,
        fast: f.fast,
    }
}

/// The layout that `def` gets in the tantivy schema.
pub fn field_layout(def: &FieldDefinition) -> (r: FieldLayout)
    ensures
        r == layout_of(def@),
{
    let kind = match def.field_type {
        FieldType::Text => TantivyKind::Text,
        FieldType::Keyword => TantivyKind::Text,
        FieldType::Datetime => TantivyKind::Date,
        FieldType::Integer => TantivyKind::I64,
        FieldType::Float => TantivyKind::F64,
        FieldType::Boolean => TantivyKind::Bool,
        FieldType::Bytes => TantivyKind::Bytes,
    };
    let tokenization = match def.field_type {
        FieldType::Keyword => Tokenization::Exact,
        _ => Tokenization::FullText,
    };
    FieldLayout { kind, tokenization, indexed: def.indexed, stored: def.stored, fast: def.fast }
}

/// The tantivy type name of a field kind.
pub open spec fn kind_name(k: TantivyKind) -> Seq<char> {
    match k {
        TantivyKind::Text => "text"@,
        TantivyKind::Date => "date"@,
        TantivyKind::I64 => "i64"@,
        TantivyKind::F64 => "f64"@,
        TantivyKind::Bool => "bool"@,
        TantivyKind::Bytes => "bytes"@,
    }
}

/// What tantivy holds of the field `name` laid out as `l`: its kind's type,
/// the layout's three flags, and, for an indexed text field, the `default`
/// tokenizer recording positions (full text) or the `raw` tokenizer
/// recording documents only (exact).
pub open spec fn layout_settings(name: Seq<char>, l: FieldLayout) -> FieldSettings {
    (
        name,
        kind_name(l.kind),
        l.indexed,
        l.stored,
        l.fast,
        if l.kind == TantivyKind::Text && l.indexed {
            Some(
                match l.tokenization {
                    Tokenization::FullText => ("default"@, "position"@),
                    Tokenization::Exact => ("raw"@, "basic"@),
                },
            )
        } else {
            None
        },
    )
}

/// Appends the field `name` to the builder with the options that `layout`
/// gives.
fn add_laid_out_field(b: &mut SchemaBuilder, name: &str, layout: FieldLayout)
    requires
        can_add(builder_fields(*old(b)), name@),
    ensures
        builder_fields(*final(b)) == builder_fields(*old(b)).push(layout_settings(name@, layout)),
{
    match layout.kind {
        TantivyKind::Text => {
            let mut o = text_options();
            if layout.indexed {
                let ix = match layout.tokenization {
                    Tokenization::FullText => indexing_set_record(
                        indexing_set_tokenizer(text_indexing(), "default"),
                        record_with_positions(),
                    ),
                    Tokenization::Exact => indexing_set_record(
                        indexing_set_tokenizer(text_indexing(), "raw"),
                        record_basic(),
                    ),
                };
                o = text_set_indexing(o, ix);
            }
            if layout.stored {
                o = text_set_stored(o);
            }
            if layout.fast {
                o = text_set_fast(o);
            }
            add_text_field(b, name, o);
        },
        TantivyKind::Date => {
            let mut o = date_options();
            if layout.indexed {
                o = date_set_indexed(o);
            }
            if layout.stored {
                o = date_set_stored(o);
            }
            if layout.fast {
                o = date_set_fast(o);
            }
            add_date_field(b, name, o);
        },
        TantivyKind::Bytes => {
            let mut o = bytes_options();
            if layout.indexed {
                o = bytes_set_indexed(o);
            }
            if layout.stored {
                o = bytes_set_stored(o);
            }
            if layout.fast {
                o = bytes_set_fast(o);
            }
            add_bytes_field(b, name, o);
        },
        _ => {
            let mut o = numeric_options();
            if layout.indexed {
                o = numeric_set_indexed(o);
            }
            if layout.stored {
                o = numeric_set_stored(o);
            }
            if layout.fast {
                o = numeric_set_fast(o);
            }
            match layout.kind {
                TantivyKind::I64 => add_i64_field(b, name, o),
                TantivyKind::F64 => add_f64_field(b, name, o),
                _ => add_bool_field(b, name, o),
            }
        },
    }
}

// ---------------------------------------------------------------------------
// The schema
// ---------------------------------------------------------------------------

/// Building a schema cannot fail today; the error type is kept for callers
/// that match on it.
pub enum SchemaBuilderError {
    ValidationError(String),
}

/// `"_source"`: the stored JSON field holding each original document.
pub open spec fn source_field_name() -> Seq<char> {
    seq!['_', 's', 'o', 'u', 'r', 'c', 'e']
}

/// What tantivy holds of `_source`: a JSON field that is stored, not
/// indexed and not fast.
pub open spec fn source_settings() -> FieldSettings {
    (source_field_name(), "json_object"@, false, true, false, None)
}

/// `"_dynamic"`: the catch-all text field of an index in dynamic mode.
pub open spec fn dynamic_field_name() -> Seq<char> {
    seq!['_', 'd', 'y', 'n', 'a', 'm', 'i', 'c']
}

/// The layout of `_dynamic`: a text field, indexed with the `default`
/// tokenizer recording positions, neither stored nor fast.
pub open spec fn dynamic_layout() -> FieldLayout {
    FieldLayout {
        kind: TantivyKind::Text,
        tokenization: Tokenization::FullText,
        indexed: true,
        stored: false,
        fast: false,
    }
}

/// What tantivy holds of `_dynamic`.
pub open spec fn dynamic_settings() -> FieldSettings {
    layout_settings(dynamic_field_name(), dynamic_layout())
}

/// The fields a definition adds after its declared ones: `_source`, and in
/// dynamic mode `_dynamic`.
pub open spec fn extra_settings(mode: SchemaMode) -> Seq<FieldSettings> {
    if mode == SchemaMode::Dynamic {
        seq![source_settings(), dynamic_settings()]
    } else {
        seq![source_settings()]
    }
}

/// What tantivy holds of the declared fields, in declaration order: each
/// laid out as [`layout_of`] says.
pub open spec fn declared_settings(fields: Seq<(String, FieldDefinition)>) -> Seq<FieldSettings> {
    Seq::new(fields.len(), |i: int| layout_settings(fields[i].0@, layout_of(fields[i].1@)))
}

/// The definitions that tantivy accepts: field names unique, valid for
/// tantivy, none of them `_source`, and in dynamic mode none of them
/// `_dynamic`.
pub open spec fn schema_buildable(def: IndexDefinition) -> bool {
    &&& def.wf()
    &&& forall|i: int|
        0 <= i < def.fields@.len() ==> valid_field_name(#[trigger] def.fields@[i].0@)
            && def.fields@[i].0@ != source_field_name()
            && (def.mode == SchemaMode::Dynamic ==> def.fields@[i].0@ != dynamic_field_name())
}

/// Converts an index definition into a tantivy schema: one field per
/// declared field, with the type, flags and tokenizer that [`layout_of`]
/// gives it, in declaration order, then the stored JSON field `_source`,
/// and in dynamic mode the catch-all text field `_dynamic`.
pub fn build_schema(definition: &IndexDefinition) -> (r: Result<Schema, SchemaBuilderError>)
    requires
        schema_buildable(*definition),
    ensures
        r matches Ok(s) && schema_fields(s) == declared_settings(definition.fields@) + extra_settings(
            definition.mode,
        ),
{
    let mut b = new_schema_builder();
    let mut i: usize = 0;
    while i < definition.fields.len()
        invariant
            i <= definition.fields@.len(),
            schema_buildable(*definition),
            builder_fields(b) == declared_settings(definition.fields@).take(i as int),
        decreases definition.fields@.len() - i,
    {
        let (name, field_def) = (&definition.fields[i].0, &definition.fields[i].1);
        proof {
            let done = declared_settings(definition.fields@).take(i as int);
            assert(valid_field_name(definition.fields@[i as int].0@));
            if field_names(done).contains(name@) {
                let j = choose|j: int| 0 <= j < field_names(done).len() && field_names(done)[j] == name@;
                assert(done[j].0 == definition.fields@[j].0@);
                assert(definition.fields@[j].0@ == definition.fields@[i as int].0@);
            }
        }
        let layout = field_layout(field_def);
        add_laid_out_field(&mut b, name.as_str(), layout);
        proof {
            assert(declared_settings(definition.fields@).take(i as int).push(
                layout_settings(name@, layout),
            ) =~= declared_settings(definition.fields@).take(i + 1));
        }
        i = i + 1;
    }
    let source = "_source";
    proof {
        reveal_strlit("_source");
        assert(source@ =~= source_field_name());
        let all = declared_settings(definition.fields@);
        assert(all.take(i as int) =~= all);
        if field_names(all).contains(source@) {
            let j = choose|j: int| 0 <= j < field_names(all).len() && field_names(all)[j] == source@;
            assert(all[j].0 == definition.fields@[j].0@);
            assert(definition.fields@[j].0@ == source_field_name());
        }
    }
    add_stored_json_field(&mut b, source);
    if definition.mode == SchemaMode::Dynamic {
        let dynamic = "_dynamic";
        proof {
            reveal_strlit("_dynamic");
            assert(dynamic@ =~= dynamic_field_name());
            let all = declared_settings(definition.fields@);
            let now = all.push(source_settings());
            if field_names(now).contains(dynamic@) {
                let j = choose|j: int| 0 <= j < field_names(now).len() && field_names(now)[j] == dynamic@;
                if j < all.len() {
                    assert(all[j].0 == definition.fields@[j].0@);
                } else {
                    assert(now[j].0 == source_field_name());
                }
            }
        }
        let layout = FieldLayout {
            kind: TantivyKind::Text,
            tokenization: Tokenization::FullText,
            indexed: true,
            stored: false,
            fast: false,
        };
        add_laid_out_field(&mut b, dynamic, layout);
        proof {
            assert(declared_settings(definition.fields@).push(source_settings()).push(dynamic_settings())
                =~= declared_settings(definition.fields@) + extra_settings(definition.mode));
        }
    } else {
        proof {
            assert(declared_settings(definition.fields@).push(source_settings())
                =~= declared_settings(definition.fields@) + extra_settings(definition.mode));
        }
    }
    Ok(finish_schema(b))
}

} // verus!
