//! The indexer's decisions: which definition an event is indexed under,
//! what document is written, when a retention purge can run, which indexes
//! have uncommitted changes, and when to commit.
//!
//! The indexer task itself (receiving events, driving tantivy's index
//! writers, committing) runs outside the library and asks these functions.
use vstd::prelude::*;

use crate::json::{Json, JsonNumber, JsonValue};
use crate::registry::IndexRegistry;
use crate::schema::definition::{
    declares_field, find_field, FieldDefinition, FieldDefinitionView, FieldType, IndexDefinition,
    SchemaMode,
};
use crate::text::{chars_eq, chars_of, concat, decimal, owned, push_decimal, str_eq, string_from_chars};
use crate::wal::IngestEvent;

verus! {

/// An event forwarded from the WAL appender to the indexer.
pub struct IndexerEvent {
    pub event: IngestEvent,
    /// The WAL byte offset after this event was written.
    pub wal_offset: u64,
}

// ---------------------------------------------------------------------------
// Events
// ---------------------------------------------------------------------------

/// `Unknown index: '<name>'`.
pub open spec fn unknown_index_message(name: Seq<char>) -> Seq<char> {
    "Unknown index: '"@ + name + "'"@
}

/// The definition that an event for the index `name` is indexed under: a
/// copy of the registered one, or the error message for an unknown index.
pub fn event_definition(registry: &IndexRegistry, name: &str) -> (r: Result<IndexDefinition, String>)
    ensures
        registry@.contains_key(name@) ==> (r matches Ok(d) && d@ == registry@[name@] && d.wf()),
        !registry@.contains_key(name@) ==> (r matches Err(m) && m@ == unknown_index_message(name@)),
{
    match registry.get(name) {
        Some(d) => Ok(d),
        None => {
            let m = concat(concat("Unknown index: '", name).as_str(), "'");
            Err(m)
        },
    }
}

/// `"_source"`: the stored field that holds the whole original document.
pub open spec fn source_key() -> Seq<char> {
    seq!['_', 's', 'o', 'u', 'r', 'c', 'e']
}

/// `"_dynamic"`: the catch-all text field of an index in dynamic mode.
pub open spec fn dynamic_key() -> Seq<char> {
    seq!['_', 'd', 'y', 'n', 'a', 'm', 'i', 'c']
}

/// Whether an entry goes into the indexed document as a field of its own: its
/// key is declared, its value is not null, and its key is not `_source`
/// (which the whole document takes) nor, in dynamic mode, `_dynamic` (which
/// the catch-all text takes).
pub open spec fn indexed_entry(
    fields: Seq<(String, FieldDefinition)>,
    mode: SchemaMode,
    e: (String, JsonValue),
) -> bool {
    &&& declares_field(fields, e.0@)
    &&& !(e.1 is Null)
    &&& e.0@ != source_key()
    &&& !(mode == SchemaMode::Dynamic && e.0@ == dynamic_key())
}

/// The entries of the document that are indexed as fields, in order.
pub open spec fn indexed_entries(
    fields: Seq<(String, FieldDefinition)>,
    mode: SchemaMode,
    entries: Seq<(String, JsonValue)>,
) -> Seq<(String, JsonValue)>
    decreases entries.len(),
{
    if entries.len() == 0 {
        Seq::empty()
    } else {
        let rest = indexed_entries(fields, mode, entries.drop_last());
        if indexed_entry(fields, mode, entries.last()) {
            rest.push(entries.last())
        } else {
            rest
        }
    }
}

/// The text of a scalar value in the catch-all field: a string as it is,
/// a boolean as `true` or `false`, an integer in decimal; other values have
/// none.
pub open spec fn value_text(v: JsonValue) -> Option<Seq<char>> {
    match v {
        JsonValue::String(s) => Some(s@),
        JsonValue::Bool(b) => Some(
            if b {
                seq!['t', 'r', 'u', 'e']
            } else {
                seq!['f', 'a', 'l', 's', 'e']
            },
        ),
        JsonValue::Number(JsonNumber::PosInt(u)) => Some(decimal(u as nat)),
        JsonValue::Number(JsonNumber::NegInt(i)) => Some(
            if i < 0 {
                seq!['-'] + decimal((0 - i) as nat)
            } else {
                decimal(i as nat)
            },
        ),
        _ => None,
    }
}

/// Whether an entry is not mapped: its key is neither declared nor
/// `_source`.
pub open spec fn unmapped_entry(fields: Seq<(String, FieldDefinition)>, e: (String, JsonValue)) -> bool {
    !declares_field(fields, e.0@) && e.0@ != source_key()
}

/// What an unmapped entry contributes to the catch-all text: a space and
/// its key, then a space and its value's text when it has one.
pub open spec fn entry_text(e: (String, JsonValue)) -> Seq<char> {
    seq![' '] + e.0@ + match value_text(e.1) {
        Some(t) => seq![' '] + t,
        None => Seq::empty(),
    }
}

/// The catch-all text of a document: the texts of its unmapped entries, in
/// order.
pub open spec fn dynamic_text(
    fields: Seq<(String, FieldDefinition)>,
    entries: Seq<(String, JsonValue)>,
) -> Seq<char>
    decreases entries.len(),
{
    if entries.len() == 0 {
        Seq::empty()
    } else {
        dynamic_text(fields, entries.drop_last()) + if unmapped_entry(fields, entries.last()) {
            entry_text(entries.last())
        } else {
            Seq::empty()
        }
    }
}

fn push_chars(out: &mut Vec<char>, s: &str)
    ensures
        final(out)@ == old(out)@ + s@,
{
    let cs = chars_of(s);
    let mut i: usize = 0;
    while i < cs.len()
        invariant
            i <= cs@.len(),
            cs@ == s@,
            out@ == old(out)@ + cs@.take(i as int),
        decreases cs@.len() - i,
    {
        out.push(cs[i]);
        assert(old(out)@ + cs@.take(i + 1) =~= (old(out)@ + cs@.take(i as int)).push(cs@[i as int]));
        i = i + 1;
    }
    assert(cs@.take(i as int) =~= cs@);
}

/// Appends what an unmapped entry contributes to the catch-all text.
fn push_entry_text(out: &mut Vec<char>, e: &(String, JsonValue))
    ensures
        final(out)@ == old(out)@ + entry_text(*e),
{
    out.push(' ');
    push_chars(out, e.0.as_str());
    match &e.1 {
        JsonValue::String(s) => {
            out.push(' ');
            push_chars(out, s.as_str());
        },
        JsonValue::Bool(b) => {
            out.push(' ');
            if *b {
                out.push('t');
                out.push('r');
                out.push('u');
                out.push('e');
            } else {
                out.push('f');
                out.push('a');
                out.push('l');
                out.push('s');
                out.push('e');
            }
        },
        JsonValue::Number(JsonNumber::PosInt(u)) => {
            out.push(' ');
            push_decimal(out, *u);
        },
        JsonValue::Number(JsonNumber::NegInt(i)) => {
            out.push(' ');
            if *i < 0 {
                out.push('-');
                let m: u64 = if *i == i64::MIN {
                    0x8000_0000_0000_0000u64
                } else {
                    (0 - *i) as u64
                };
                push_decimal(out, m);
            } else {
                push_decimal(out, *i as u64);
            }
        },
        _ => {},
    }
    assert(final(out)@ =~= old(out)@ + entry_text(*e));
}

/// `Payload must be a JSON object`.
pub open spec fn not_object_message() -> Seq<char> {
    "Payload must be a JSON object"@
}

/// The document that tantivy indexes for `source`: the entries of `source`
/// that are declared fields with non-null values, in order, then the whole
/// of `source` under `_source`, and in dynamic mode the catch-all text of
/// its unmapped entries under `_dynamic`. A source that is not an object is
/// refused.
pub fn document_root(fields: &Vec<(String, FieldDefinition)>, mode: SchemaMode, source: JsonValue) -> (r:
    Result<JsonValue, String>)
    ensures
        !(source is Object) ==> (r matches Err(m) && m@ == not_object_message()),
        source matches JsonValue::Object(entries) ==> {
            let kept = indexed_entries(fields@, mode, entries@);
            let n = kept.len() as int;
            &&& r matches Ok(JsonValue::Object(out))
            &&& out@.len() == n + if mode == SchemaMode::Dynamic { 2int } else { 1int }
            &&& forall|j: int|
                0 <= j < n ==> (#[trigger] out@[j]).0@ == kept[j].0@ && out@[j].1@ == kept[j].1@
            &&& out@[n].0@ == source_key()
            &&& out@[n].1@ == source@
            &&& mode == SchemaMode::Dynamic ==> out@[n + 1].0@ == dynamic_key() && out@[n + 1].1@
                == Json::Str(dynamic_text(fields@, entries@))
        },
{
    let mut out: Vec<(String, JsonValue)> = Vec::new();
    match &source {
        JsonValue::Object(entries) => {
            let src = "_source";
            let dynamic = "_dynamic";
            proof {
                reveal_strlit("_source");
                reveal_strlit("_dynamic");
                assert(src@ =~= source_key());
                assert(dynamic@ =~= dynamic_key());
            }
            let is_dynamic = mode == SchemaMode::Dynamic;
            let mut text: Vec<char> = Vec::new();
            let mut i: usize = 0;
            while i < entries.len()
                invariant
                    i <= entries@.len(),
                    src@ == source_key(),
                    dynamic@ == dynamic_key(),
                    is_dynamic == (mode == SchemaMode::Dynamic),
                    text@ == dynamic_text(fields@, entries@.take(i as int)),
                    out@.len() == indexed_entries(fields@, mode, entries@.take(i as int)).len(),
                    forall|j: int|
                        0 <= j < out@.len() ==> (#[trigger] out@[j]).0@ == indexed_entries(
                            fields@,
                            mode,
                            entries@.take(i as int),
                        )[j].0@ && out@[j].1@ == indexed_entries(fields@, mode, entries@.take(i as int))[j].1@,
                decreases entries@.len() - i,
            {
                let key = &entries[i].0;
                let value = &entries[i].1;
                proof {
                    assert(entries@.take(i + 1).drop_last() =~= entries@.take(i as int));
                    assert(entries@.take(i + 1).last() == entries@[i as int]);
                }
                let declared = find_field(fields, key.as_str()).is_some();
                let is_source = str_eq(key.as_str(), src);
                if declared && !value.is_null() && !is_source && !(is_dynamic && str_eq(key.as_str(), dynamic)) {
                    out.push((key.clone(), value.duplicate()));
                }
                if !declared && !is_source {
                    push_entry_text(&mut text, &entries[i]);
                } else {
                    assert(text@ + Seq::<char>::empty() =~= text@);
                }
                i = i + 1;
            }
            proof {
                assert(entries@.take(i as int) =~= entries@);
            }
            out.push((owned(src), source.duplicate()));
            if is_dynamic {
                out.push((owned(dynamic), JsonValue::String(string_from_chars(text.as_slice()))));
            }
            Ok(JsonValue::Object(out))
        },
        _ => Err(owned("Payload must be a JSON object")),
    }
}

// ---------------------------------------------------------------------------
// Retention purges
// ---------------------------------------------------------------------------

/// What a retention purge of one index deletes by: its timestamp field, and
/// whether that field is fast (a purge over a field that is not fast works,
/// but scans).
pub struct PurgeTarget {
    pub timestamp_field: String,
    pub fast: bool,
}

/// Whether a field named `name` is among the viewed fields.
pub open spec fn view_declares(fields: Seq<(Seq<char>, FieldDefinitionView)>, name: Seq<char>) -> bool {
    exists|i: int| 0 <= i < fields.len() && #[trigger] fields[i].0 == name
}

/// The viewed field named `name` (meaningful when it is declared).
pub open spec fn view_field(fields: Seq<(Seq<char>, FieldDefinitionView)>, name: Seq<char>) -> FieldDefinitionView {
    fields[choose|i: int| 0 <= i < fields.len() && #[trigger] fields[i].0 == name].1
}

/// `Index '<name>' not found in registry`.
pub open spec fn purge_unknown_message(name: Seq<char>) -> Seq<char> {
    "Index '"@ + name + "' not found in registry"@
}

/// The refusal of a timestamp field that the index does not declare.
pub open spec fn purge_undeclared_message(ts: Seq<char>, name: Seq<char>) -> Seq<char> {
    "Timestamp field '"@ + ts + "' is not declared in index '"@ + name
        + "' \u{2014} add it to fields: to enable retention"@
}

/// The refusal of a timestamp field that is not a datetime.
pub open spec fn purge_not_datetime_message(ts: Seq<char>, name: Seq<char>) -> Seq<char> {
    "Field '"@ + ts + "' must be type: datetime for retention to work in '"@ + name + "'"@
}

/// Checks that the index `name` can be purged by time: it is registered, its
/// timestamp field is declared, and that field is a datetime. Each failure
/// has its own message.
pub fn purge_target(registry: &IndexRegistry, name: &str) -> (r: Result<PurgeTarget, String>)
    ensures
        !registry@.contains_key(name@) ==> (r matches Err(m) && m@ == purge_unknown_message(name@)),
        registry@.contains_key(name@) ==> {
            let d = registry@[name@];
            let ts = d.timestamp_field;
            &&& !view_declares(d.fields, ts) ==> (r matches Err(m) && m@ == purge_undeclared_message(ts, name@))
            &&& view_declares(d.fields, ts) && view_field(d.fields, ts).field_type != FieldType::Datetime
                ==> (r matches Err(m) && m@ == purge_not_datetime_message(ts, name@))
            &&& view_declares(d.fields, ts) && view_field(d.fields, ts).field_type == FieldType::Datetime
                ==> (r matches Ok(t) && t.timestamp_field@ == ts && t.fast == view_field(d.fields, ts).fast)
        },
{
    let def = match registry.get(name) {
        Some(d) => d,
        None => {
            let m = concat(concat("Index '", name).as_str(), "' not found in registry");
            return Err(m);
        },
    };
    let ts = def.timestamp_field.as_str();
    let ghost fv = def@.fields;
    proof {
        assert(fv.len() == def.fields@.len());
        assert forall|j: int| 0 <= j < fv.len() implies #[trigger] fv[j] == (def.fields@[j].0@, def.fields@[j].1@) by {}
    }
    match find_field(&def.fields, ts) {
        None => {
            proof {
                if view_declares(fv, ts@) {
                    let j = choose|j: int| 0 <= j < fv.len() && #[trigger] fv[j].0 == ts@;
                    assert(def.fields@[j].0@ == ts@);
                }
            }
            let a = concat(concat("Timestamp field '", ts).as_str(), "' is not declared in index '");
            let m = concat(concat(a.as_str(), name).as_str(), "' \u{2014} add it to fields: to enable retention");
            Err(m)
        },
        Some(i) => {
            proof {
                assert(fv[i as int].0 == ts@);
                assert(view_declares(fv, ts@));
                let j = choose|j: int| 0 <= j < fv.len() && #[trigger] fv[j].0 == ts@;
                assert(def.fields@[j].0@ == def.fields@[i as int].0@);
            }
            let f = &def.fields[i].1;
            match f.field_type {
                FieldType::Datetime => Ok(PurgeTarget { timestamp_field: owned(ts), fast: f.fast }),
                _ => {
                    let a = concat(concat("Field '", ts).as_str(), "' must be type: datetime for retention to work in '");
                    let m = concat(concat(a.as_str(), name).as_str(), "'");
                    Err(m)
                },
            }
        },
    }
}

// ---------------------------------------------------------------------------
// Uncommitted changes
// ---------------------------------------------------------------------------

/// Whether no two entries share a name.
pub open spec fn offset_names_unique(e: Seq<(String, u64)>) -> bool {
    forall|i: int, j: int| 0 <= i < e.len() && 0 <= j < e.len() && i != j ==> e[i].0@ != e[j].0@
}

/// Whether some entry has the name `k`.
pub open spec fn offset_named(e: Seq<(String, u64)>, k: Seq<char>) -> bool {
    exists|i: int| 0 <= i < e.len() && #[trigger] e[i].0@ == k
}

/// The map from index name to pending WAL offset that a list of entries
/// stands for.
pub open spec fn offsets_map(e: Seq<(String, u64)>) -> Map<Seq<char>, u64> {
    Map::new(
        |k: Seq<char>| offset_named(e, k),
        |k: Seq<char>| e[choose|i: int| 0 <= i < e.len() && #[trigger] e[i].0@ == k].1,
    )
}

proof fn lemma_offsets_at(e: Seq<(String, u64)>, i: int)
    requires
        offset_names_unique(e),
        0 <= i < e.len(),
    ensures
        offsets_map(e).contains_key(e[i].0@),
        offsets_map(e)[e[i].0@] == e[i].1,
{
    let k = e[i].0@;
    assert(offset_named(e, k));
    let c = choose|c: int| 0 <= c < e.len() && #[trigger] e[c].0@ == k;
    assert(c == i);
}

proof fn lemma_offsets_push(e: Seq<(String, u64)>, x: (String, u64))
    requires
        offset_names_unique(e),
        !offset_named(e, x.0@),
    ensures
        offset_names_unique(e.push(x)),
        offsets_map(e.push(x)) == offsets_map(e).insert(x.0@, x.1),
{
    let f = e.push(x);
    assert forall|a: int, b: int| 0 <= a < f.len() && 0 <= b < f.len() && a != b implies f[a].0@ != f[b].0@ by {
        if a == e.len() {
            assert(!(e[b].0@ == x.0@));
        } else if b == e.len() {
            assert(!(e[a].0@ == x.0@));
        }
    }
    assert forall|k: Seq<char>| #[trigger] offsets_map(f).contains_key(k) == offsets_map(e).insert(x.0@, x.1).contains_key(k) by {
        if offset_named(e, k) {
            let a = choose|a: int| 0 <= a < e.len() && #[trigger] e[a].0@ == k;
            assert(f[a] == e[a]);
        }
        if k == x.0@ {
            assert(f[e.len() as int] == x);
        }
        if offset_named(f, k) {
            let a = choose|a: int| 0 <= a < f.len() && #[trigger] f[a].0@ == k;
            if a < e.len() {
                assert(f[a] == e[a]);
            }
        }
    }
    assert forall|k: Seq<char>| #[trigger] offsets_map(f).contains_key(k) implies offsets_map(f)[k]
        == offsets_map(e).insert(x.0@, x.1)[k] by {
        let a = choose|a: int| 0 <= a < f.len() && #[trigger] f[a].0@ == k;
        lemma_offsets_at(f, a);
        if a < e.len() {
            assert(f[a] == e[a]);
            lemma_offsets_at(e, a);
        }
    }
    assert(offsets_map(f) =~= offsets_map(e).insert(x.0@, x.1));
}

proof fn lemma_offsets_set(e: Seq<(String, u64)>, i: int, x: (String, u64))
    requires
        offset_names_unique(e),
        0 <= i < e.len(),
        e[i].0@ == x.0@,
    ensures
        offset_names_unique(e.update(i, x)),
        offsets_map(e.update(i, x)) == offsets_map(e).insert(x.0@, x.1),
{
    let f = e.update(i, x);
    assert forall|a: int, b: int| 0 <= a < f.len() && 0 <= b < f.len() && a != b implies f[a].0@ != f[b].0@ by {
        assert(f[a].0@ == e[a].0@);
        assert(f[b].0@ == e[b].0@);
    }
    assert forall|k: Seq<char>| #[trigger] offset_named(f, k) == offset_named(e, k) by {
        if offset_named(e, k) {
            let a = choose|a: int| 0 <= a < e.len() && #[trigger] e[a].0@ == k;
            assert(f[a].0@ == e[a].0@);
        }
        if offset_named(f, k) {
            let a = choose|a: int| 0 <= a < f.len() && #[trigger] f[a].0@ == k;
            assert(f[a].0@ == e[a].0@);
        }
    }
    assert forall|k: Seq<char>| #[trigger] offsets_map(f).contains_key(k) implies offsets_map(f)[k]
        == offsets_map(e).insert(x.0@, x.1)[k] by {
        let a = choose|a: int| 0 <= a < f.len() && #[trigger] f[a].0@ == k;
        lemma_offsets_at(f, a);
        if a != i {
            lemma_offsets_at(e, a);
        } else {
            lemma_offsets_at(e, i);
        }
    }
    assert(offsets_map(f) =~= offsets_map(e).insert(x.0@, x.1));
}

/// The indexes with changes written but not yet committed, each with the WAL
/// offset that its next commit records.
pub struct DirtyOffsets {
    entries: Vec<(String, u64)>,
}

impl View for DirtyOffsets {
    type V = Map<Seq<char>, u64>;

    closed spec fn view(&self) -> Map<Seq<char>, u64> {
        offsets_map(self.entries@)
    }
}

impl DirtyOffsets {
    #[verifier::type_invariant]
    closed spec fn inv(&self) -> bool {
        offset_names_unique(self.entries@)
    }

    /// Nothing pending.
    pub fn new() -> (r: Self)
        ensures
            r@ == Map::<Seq<char>, u64>::empty(),
    {
        let r = DirtyOffsets { entries: Vec::new() };
        assert(r@ =~= Map::<Seq<char>, u64>::empty());
        r
    }

    /// Records that a document was written to `name`; its next commit
    /// records `offset`.
    pub fn mark_written(&mut self, name: &str, offset: u64)
        ensures
            final(self)@ == old(self)@.insert(name@, offset),
    {
        proof {
            use_type_invariant(&*self);
        }
        let mut e: Vec<(String, u64)> = Vec::new();
        std::mem::swap(&mut e, &mut self.entries);
        match self.position_in(&e, name) {
            Some(i) => {
                let k = e[i].0.clone();
                proof {
                    lemma_offsets_set(e@, i as int, (k, offset));
                }
                e.set(i, (k, offset));
            },
            None => {
                let x = (owned(name), offset);
                proof {
                    lemma_offsets_push(e@, x);
                }
                e.push(x);
            },
        }
        self.entries = e;
    }

    /// Records that deletions were staged for `name`. A pending offset is
    /// kept as it is; an index with nothing pending gets offset 0.
    pub fn mark_purged(&mut self, name: &str)
        ensures
            old(self)@.contains_key(name@) ==> final(self)@ == old(self)@,
            !old(self)@.contains_key(name@) ==> final(self)@ == old(self)@.insert(name@, 0),
    {
        proof {
            use_type_invariant(&*self);
        }
        let mut e: Vec<(String, u64)> = Vec::new();
        std::mem::swap(&mut e, &mut self.entries);
        match self.position_in(&e, name) {
            Some(i) => {
                proof {
                    lemma_offsets_at(e@, i as int);
                }
            },
            None => {
                let x = (owned(name), 0u64);
                proof {
                    lemma_offsets_push(e@, x);
                }
                e.push(x);
            },
        }
        self.entries = e;
    }

    /// Whether nothing is pending.
    pub fn is_empty(&self) -> (r: bool)
        ensures
            r <==> self@ == Map::<Seq<char>, u64>::empty(),
    {
        proof {
            use_type_invariant(self);
        }
        if self.entries.len() == 0 {
            assert(self@ =~= Map::<Seq<char>, u64>::empty());
            true
        } else {
            proof {
                lemma_offsets_at(self.entries@, 0);
                assert(self@.contains_key(self.entries@[0].0@));
            }
            false
        }
    }

    /// Takes every pending entry out, each index once with its offset, and
    /// leaves nothing pending.
    pub fn drain(&mut self) -> (r: Vec<(String, u64)>)
        ensures
            final(self)@ == Map::<Seq<char>, u64>::empty(),
            offset_names_unique(r@),
            offsets_map(r@) == old(self)@,
    {
        proof {
            use_type_invariant(&*self);
        }
        let mut e: Vec<(String, u64)> = Vec::new();
        std::mem::swap(&mut e, &mut self.entries);
        assert(self@ =~= Map::<Seq<char>, u64>::empty());
        e
    }

    fn position_in(&self, e: &Vec<(String, u64)>, name: &str) -> (r: Option<usize>)
        ensures
            r matches Some(i) ==> i < e@.len() && e@[i as int].0@ == name@,
            r is None ==> !offset_named(e@, name@),
    {
        let target = chars_of(name);
        let mut i: usize = 0;
        while i < e.len()
            invariant
                i <= e@.len(),
                target@ == name@,
                forall|j: int| 0 <= j < i ==> e@[j].0@ != name@,
            decreases e@.len() - i,
        {
            let k = chars_of(e[i].0.as_str());
            if chars_eq(k.as_slice(), target.as_slice()) {
                return Some(i);
            }
            i = i + 1;
        }
        None
    }
}

// ---------------------------------------------------------------------------
// Commits
// ---------------------------------------------------------------------------

/// When the indexer commits: after `docs_per_commit` documents were indexed
/// since the last commit, and on every timer tick while some index has
/// uncommitted changes.
pub struct CommitSchedule {
    docs_per_commit: usize,
    docs_since_commit: usize,
}

impl CommitSchedule {
    #[verifier::type_invariant]
    closed spec fn inv(&self) -> bool {
        self.docs_since_commit == 0 || self.docs_since_commit < self.docs_per_commit
    }

    /// The documents-per-commit threshold.
    pub closed spec fn threshold(&self) -> nat {
        self.docs_per_commit as nat
    }

    /// The documents indexed since the last commit.
    pub closed spec fn pending(&self) -> nat {
        self.docs_since_commit as nat
    }

    /// A schedule that commits every `docs_per_commit` documents.
    pub fn new(docs_per_commit: usize) -> (r: Self)
        ensures
            r.threshold() == docs_per_commit,
            r.pending() == 0,
    {
        CommitSchedule { docs_per_commit, docs_since_commit: 0 }
    }

    /// An event was processed; `indexed` says whether its document was
    /// indexed. Returns whether to commit all indexes now, which is when the
    /// count of documents since the last commit reaches the threshold; the
    /// count then starts again from zero.
    pub fn on_event(&mut self, indexed: bool) -> (commit: bool)
        ensures
            final(self).threshold() == old(self).threshold(),
            final(self).pending() == 0 || final(self).pending() < final(self).threshold(),
            ({
                let count = if indexed { old(self).pending() + 1 } else { old(self).pending() };
                &&& commit == (count >= old(self).threshold())
                &&& final(self).pending() == if commit { 0 } else { count }
            }),
    {
        proof {
            use_type_invariant(&*self);
        }
        let count = if indexed { self.docs_since_commit + 1 } else { self.docs_since_commit };
        if count >= self.docs_per_commit {
            self.docs_since_commit = 0;
            true
        } else {
            self.docs_since_commit = count;
            false
        }
    }

    /// The commit timer ticked; `dirty` says whether some index has
    /// uncommitted changes. Returns whether to commit all indexes now, which
    /// is exactly when `dirty`; the count then starts again from zero.
    pub fn on_tick(&mut self, dirty: bool) -> (commit: bool)
        ensures
            commit == dirty,
            final(self).threshold() == old(self).threshold(),
            final(self).pending() == 0 || final(self).pending() < final(self).threshold(),
            final(self).pending() == if dirty { 0 } else { old(self).pending() },
    {
        proof {
            use_type_invariant(&*self);
        }
        if dirty {
            self.docs_since_commit = 0;
        }
        dirty
    }
}

} // verus!
