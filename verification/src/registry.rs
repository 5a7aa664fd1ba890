//! The registry of index definitions, keyed by index name.
use vstd::prelude::*;

use crate::schema::definition::{IndexDefinition, IndexDefinitionView};
use crate::schema::validation::{
    retention_splittable, validate_schema, validation_outcome, ValidationError,
};
use crate::text::{chars_eq, chars_of, concat, owned};

verus! {

/// Why a registry operation failed.
#[derive(Debug)]
pub enum RegistryError {
    /// An index with this name is already registered.
    AlreadyExists(String),
    /// No index with this name is registered.
    NotFound(String),
    /// The definition breaks a schema rule.
    ValidationError(ValidationError),
}

/// The index definitions known to the node. No two definitions share a
/// name.
pub struct IndexRegistry {
    indexes: Vec<IndexDefinition>,
}

/// Whether no two definitions share a name.
pub open spec fn names_unique(defs: Seq<IndexDefinition>) -> bool {
    forall|i: int, j: int|
        0 <= i < defs.len() && 0 <= j < defs.len() && i != j ==> defs[i].name@ != defs[j].name@
}

/// Whether a definition named `name` is present.
pub open spec fn contains_name(defs: Seq<IndexDefinition>, name: Seq<char>) -> bool {
    exists|i: int| 0 <= i < defs.len() && #[trigger] defs[i].name@ == name
}

/// The map from index name to definition that a list of definitions stands
/// for.
pub open spec fn defs_map(defs: Seq<IndexDefinition>) -> Map<Seq<char>, IndexDefinitionView> {
    Map::new(
        |k: Seq<char>| contains_name(defs, k),
        |k: Seq<char>| defs[choose|i: int| 0 <= i < defs.len() && #[trigger] defs[i].name@ == k]@,
    )
}

/// In a list with unique names, the entry at `i` is the one the map shows
/// under its name.
proof fn lemma_defs_map_at(defs: Seq<IndexDefinition>, i: int)
    requires
        names_unique(defs),
        0 <= i < defs.len(),
    ensures
        defs_map(defs).contains_key(defs[i].name@),
        defs_map(defs)[defs[i].name@] == defs[i]@,
{
    let k = defs[i].name@;
    assert(contains_name(defs, k));
    let c = choose|c: int| 0 <= c < defs.len() && #[trigger] defs[c].name@ == k;
    assert(c == i);
}

proof fn lemma_defs_map_push(defs: Seq<IndexDefinition>, d: IndexDefinition)
    requires
        names_unique(defs),
        !contains_name(defs, d.name@),
    ensures
        names_unique(defs.push(d)),
        defs_map(defs.push(d)) == defs_map(defs).insert(d.name@, d@),
{
    let e = defs.push(d);
    assert forall|i: int, j: int|
        0 <= i < e.len() && 0 <= j < e.len() && i != j implies e[i].name@ != e[j].name@ by {
        if i < defs.len() {
            assert(e[i] == defs[i]);
        }
        if j < defs.len() {
            assert(e[j] == defs[j]);
        }
        if i == defs.len() {
            assert(!(defs[j].name@ == d.name@));
        }
        if j == defs.len() {
            assert(!(defs[i].name@ == d.name@));
        }
    }
    assert forall|k: Seq<char>| #[trigger] contains_name(e, k) == (contains_name(defs, k) || k
        == d.name@) by {
        if contains_name(defs, k) {
            let i = choose|i: int| 0 <= i < defs.len() && #[trigger] defs[i].name@ == k;
            assert(e[i] == defs[i]);
        }
        if k == d.name@ {
            assert(e[defs.len() as int] == d);
        }
        if contains_name(e, k) {
            let i = choose|i: int| 0 <= i < e.len() && #[trigger] e[i].name@ == k;
            if i < defs.len() {
                assert(e[i] == defs[i]);
            }
        }
    }
    assert forall|k: Seq<char>| #[trigger] defs_map(e).contains_key(k) implies defs_map(e)[k]
        == defs_map(defs).insert(d.name@, d@)[k] by {
        let i = choose|i: int| 0 <= i < e.len() && #[trigger] e[i].name@ == k;
        lemma_defs_map_at(e, i);
        if i < defs.len() {
            assert(e[i] == defs[i]);
            lemma_defs_map_at(defs, i);
        }
    }
    assert(defs_map(e) =~= defs_map(defs).insert(d.name@, d@));
}

proof fn lemma_defs_map_set(defs: Seq<IndexDefinition>, i: int, d: IndexDefinition)
    requires
        names_unique(defs),
        0 <= i < defs.len(),
        defs[i].name@ == d.name@,
    ensures
        names_unique(defs.update(i, d)),
        defs_map(defs.update(i, d)) == defs_map(defs).insert(d.name@, d@),
{
    let e = defs.update(i, d);
    assert forall|a: int, b: int|
        0 <= a < e.len() && 0 <= b < e.len() && a != b implies e[a].name@ != e[b].name@ by {
        assert(e[a].name@ == defs[a].name@);
        assert(e[b].name@ == defs[b].name@);
    }
    assert forall|k: Seq<char>| #[trigger] contains_name(e, k) == contains_name(defs, k) by {
        if contains_name(defs, k) {
            let a = choose|a: int| 0 <= a < defs.len() && #[trigger] defs[a].name@ == k;
            assert(e[a].name@ == defs[a].name@);
        }
        if contains_name(e, k) {
            let a = choose|a: int| 0 <= a < e.len() && #[trigger] e[a].name@ == k;
            assert(e[a].name@ == defs[a].name@);
        }
    }
    lemma_defs_map_at(defs, i);
    assert forall|k: Seq<char>| #[trigger] defs_map(e).contains_key(k) implies defs_map(e)[k]
        == defs_map(defs).insert(d.name@, d@)[k] by {
        let a = choose|a: int| 0 <= a < e.len() && #[trigger] e[a].name@ == k;
        lemma_defs_map_at(e, a);
        if a != i {
            assert(e[a] == defs[a]);
            lemma_defs_map_at(defs, a);
        }
    }
    assert(defs_map(e) =~= defs_map(defs).insert(d.name@, d@));
}

proof fn lemma_defs_map_remove(defs: Seq<IndexDefinition>, i: int)
    requires
        names_unique(defs),
        0 <= i < defs.len(),
    ensures
        names_unique(defs.remove(i)),
        defs_map(defs.remove(i)) == defs_map(defs).remove(defs[i].name@),
{
    let e = defs.remove(i);
    let n = defs[i].name@;
    assert forall|a: int| 0 <= a < e.len() implies #[trigger] e[a] == if a < i {
        defs[a]
    } else {
        defs[a + 1]
    } by {}
    assert forall|a: int, b: int|
        0 <= a < e.len() && 0 <= b < e.len() && a != b implies e[a].name@ != e[b].name@ by {
        let a2 = if a < i { a } else { a + 1 };
        let b2 = if b < i { b } else { b + 1 };
        assert(e[a] == defs[a2]);
        assert(e[b] == defs[b2]);
    }
    assert forall|k: Seq<char>| #[trigger] contains_name(e, k) == (contains_name(defs, k) && k != n) by {
        if contains_name(defs, k) && k != n {
            let a = choose|a: int| 0 <= a < defs.len() && #[trigger] defs[a].name@ == k;
            assert(a != i);
            let a2 = if a < i { a } else { a - 1 };
            assert(e[a2] == defs[a]);
        }
        if contains_name(e, k) {
            let a = choose|a: int| 0 <= a < e.len() && #[trigger] e[a].name@ == k;
            let a2 = if a < i { a } else { a + 1 };
            assert(e[a] == defs[a2]);
            assert(a2 != i);
        }
    }
    assert forall|k: Seq<char>| #[trigger] defs_map(e).contains_key(k) implies defs_map(e)[k]
        == defs_map(defs).remove(n)[k] by {
        let a = choose|a: int| 0 <= a < e.len() && #[trigger] e[a].name@ == k;
        lemma_defs_map_at(e, a);
        let a2 = if a < i { a } else { a + 1 };
        assert(e[a] == defs[a2]);
        lemma_defs_map_at(defs, a2);
    }
    assert(defs_map(e) =~= defs_map(defs).remove(n));
}

impl View for IndexRegistry {
    type V = Map<Seq<char>, IndexDefinitionView>;

    closed spec fn view(&self) -> Map<Seq<char>, IndexDefinitionView> {
        defs_map(self.indexes@)
    }
}

impl IndexRegistry {
    #[verifier::type_invariant]
    closed spec fn inv(&self) -> bool {
        &&& names_unique(self.indexes@)
        &&& forall|i: int| 0 <= i < self.indexes@.len() ==> (#[trigger] self.indexes@[i]).wf()
    }

    /// Finds the stored definition named `name`.
    fn position(&self, name: &str) -> (r: Option<usize>)
        ensures
            r matches Some(i) ==> i < self.indexes@.len() && self.indexes@[i as int].name@
                == name@,
            r is None ==> !contains_name(self.indexes@, name@),
    {
        let target = chars_of(name);
        let mut i: usize = 0;
        while i < self.indexes.len()
            invariant
                i <= self.indexes@.len(),
                target@ == name@,
                forall|j: int| 0 <= j < i ==> self.indexes@[j].name@ != name@,
            decreases self.indexes@.len() - i,
        {
            let k = chars_of(self.indexes[i].name.as_str());
            if chars_eq(k.as_slice(), target.as_slice()) {
                return Some(i);
            }
            i = i + 1;
        }
        None
    }

    /// An empty registry.
    pub fn new() -> (r: Self)
        ensures
            r@ == Map::<Seq<char>, IndexDefinitionView>::empty(),
    {
        let r = IndexRegistry { indexes: Vec::new() };
        assert(r@ =~= Map::<Seq<char>, IndexDefinitionView>::empty());
        r
    }

    /// Registers a new index definition. The definition is validated first;
    /// an index with the same name must not already exist.
    pub fn register(&mut self, definition: IndexDefinition) -> (r: Result<(), RegistryError>)
        requires
            definition.wf(),
            definition.retention matches Some(ret) ==> retention_splittable(ret@),
        ensures
            validation_outcome(definition) matches Err(e) ==> r == Err::<(), RegistryError>(
                RegistryError::ValidationError(e),
            ) && final(self)@ == old(self)@,
            validation_outcome(definition) is Ok && old(self)@.contains_key(definition.name@)
                ==> r == Err::<(), RegistryError>(RegistryError::AlreadyExists(definition.name))
                && final(self)@ == old(self)@,
            validation_outcome(definition) is Ok && !old(self)@.contains_key(definition.name@)
                ==> r is Ok && final(self)@ == old(self)@.insert(definition.name@, definition@),
    {
        proof {
            use_type_invariant(&*self);
        }
        if let Err(e) = validate_schema(&definition) {
            return Err(RegistryError::ValidationError(e));
        }
        match self.position(definition.name.as_str()) {
            Some(i) => {
                proof {
                    lemma_defs_map_at(self.indexes@, i as int);
                }
                Err(RegistryError::AlreadyExists(definition.name))
            },
            None => {
                proof {
                    lemma_defs_map_push(self.indexes@, definition);
                }
                let mut defs = Vec::new();
                std::mem::swap(&mut defs, &mut self.indexes);
                defs.push(definition);
                self.indexes = defs;
                Ok(())
            },
        }
    }

    /// Registers an index definition, replacing any definition with the
    /// same name. The definition is validated first.
    pub fn upsert(&mut self, definition: IndexDefinition) -> (r: Result<(), RegistryError>)
        requires
            definition.wf(),
            definition.retention matches Some(ret) ==> retention_splittable(ret@),
        ensures
            validation_outcome(definition) matches Err(e) ==> r == Err::<(), RegistryError>(
                RegistryError::ValidationError(e),
            ) && final(self)@ == old(self)@,
            validation_outcome(definition) is Ok ==> r is Ok && final(self)@ == old(self)@.insert(
                definition.name@,
                definition@,
            ),
    {
        proof {
            use_type_invariant(&*self);
        }
        if let Err(e) = validate_schema(&definition) {
            return Err(RegistryError::ValidationError(e));
        }
        match self.position(definition.name.as_str()) {
            Some(i) => {
                proof {
                    lemma_defs_map_set(self.indexes@, i as int, definition);
                }
                let mut defs = Vec::new();
                std::mem::swap(&mut defs, &mut self.indexes);
                defs.set(i, definition);
                self.indexes = defs;
            },
            None => {
                proof {
                    lemma_defs_map_push(self.indexes@, definition);
                }
                let mut defs = Vec::new();
                std::mem::swap(&mut defs, &mut self.indexes);
                defs.push(definition);
                self.indexes = defs;
            },
        }
        Ok(())
    }

    /// A copy of the definition registered under `name`, if any.
    pub fn get(&self, name: &str) -> (r: Option<IndexDefinition>)
        ensures
            self@.contains_key(name@) ==> (r matches Some(d) && d@ == self@[name@] && d.wf()),
            !self@.contains_key(name@) ==> r is None,
    {
        proof {
            use_type_invariant(self);
        }
        match self.position(name) {
            Some(i) => {
                proof {
                    lemma_defs_map_at(self.indexes@, i as int);
                }
                let d = self.indexes[i].duplicate();
                Some(d)
            },
            None => None,
        }
    }

    /// Copies of all registered definitions, one per name, in no
    /// particular order.
    pub fn list(&self) -> (r: Vec<IndexDefinition>)
        ensures
            names_unique(r@),
            forall|i: int|
                0 <= i < r@.len() ==> self@.contains_key((#[trigger] r@[i]).name@) && self@[r@[
                    i
                ].name@] == r@[i]@,
            forall|k: Seq<char>| #[trigger] self@.contains_key(k) ==> contains_name(r@, k),
    {
        proof {
            use_type_invariant(self);
        }
        let mut out: Vec<IndexDefinition> = Vec::new();
        let mut i: usize = 0;
        while i < self.indexes.len()
            invariant
                names_unique(self.indexes@),
                i <= self.indexes@.len(),
                out@.len() == i,
                forall|j: int|
                    0 <= j < i ==> (#[trigger] out@[j]).name@ == self.indexes@[j].name@ && out@[j]@
                        == self.indexes@[j]@,
            decreases self.indexes@.len() - i,
        {
            out.push(self.indexes[i].duplicate());
            i = i + 1;
        }
        proof {
            assert forall|a: int, b: int|
                0 <= a < out@.len() && 0 <= b < out@.len() && a != b implies out@[a].name@
                != out@[b].name@ by {
                assert(out@[a].name@ == self.indexes@[a].name@);
                assert(out@[b].name@ == self.indexes@[b].name@);
            }
            assert forall|a: int| 0 <= a < out@.len() implies self@.contains_key(
                (#[trigger] out@[a]).name@,
            ) && self@[out@[a].name@] == out@[a]@ by {
                lemma_defs_map_at(self.indexes@, a);
            }
            assert forall|k: Seq<char>| #[trigger] self@.contains_key(k) implies contains_name(
                out@,
                k,
            ) by {
                let a = choose|a: int|
                    0 <= a < self.indexes@.len() && #[trigger] self.indexes@[a].name@ == k;
                assert(out@[a].name@ == k);
            }
        }
        out
    }

    /// Removes the definition registered under `name` and returns it.
    pub fn remove(&mut self, name: &str) -> (r: Result<IndexDefinition, RegistryError>)
        ensures
            old(self)@.contains_key(name@) ==> (r matches Ok(d) && d@ == old(self)@[name@]
                && final(self)@ == old(self)@.remove(name@)),
            !old(self)@.contains_key(name@) ==> (r matches Err(RegistryError::NotFound(n))
                && n@ == name@ && final(self)@ == old(self)@),
    {
        proof {
            use_type_invariant(&*self);
        }
        match self.position(name) {
            Some(i) => {
                proof {
                    lemma_defs_map_at(self.indexes@, i as int);
                    lemma_defs_map_remove(self.indexes@, i as int);
                }
                let mut defs = Vec::new();
                std::mem::swap(&mut defs, &mut self.indexes);
                let d = defs.remove(i);
                self.indexes = defs;
                Ok(d)
            },
            None => Err(RegistryError::NotFound(owned(name))),
        }
    }
}

impl RegistryError {
    /// The error's message.
    pub fn message(&self) -> (r: String)
        ensures
            r@ == match self {
                RegistryError::AlreadyExists(n) => "index '"@ + n@ + "' already exists"@,
                RegistryError::NotFound(n) => "index '"@ + n@ + "' not found"@,
                RegistryError::ValidationError(e) => "validation error: "@ + match e {
                    ValidationError::MissingTimestampField(f) => "timestamp field '"@ + f@
                        + "' is required for partitioning but missing from fields"@,
                    ValidationError::InvalidRetentionFormat(v) => "retention format invalid: "@ + v@,
                },
            },
    {
        match self {
            RegistryError::AlreadyExists(n) => concat(concat("index '", n.as_str()).as_str(), "' already exists"),
            RegistryError::NotFound(n) => concat(concat("index '", n.as_str()).as_str(), "' not found"),
            RegistryError::ValidationError(e) => concat("validation error: ", e.message().as_str()),
        }
    }
}

// ---------------------------------------------------------------------------
// Laws
// ---------------------------------------------------------------------------

/// A definition registered under a new name is what the registry then gives
/// back for that name.
pub proof fn law_get_after_register(before: Map<Seq<char>, IndexDefinitionView>, d: IndexDefinitionView)
    requires
        !before.contains_key(d.name),
    ensures
        before.insert(d.name, d).contains_key(d.name),
        before.insert(d.name, d)[d.name] == d,
        forall|k: Seq<char>| k != d.name ==> (#[trigger] before.insert(d.name, d).contains_key(k)
            == before.contains_key(k)),
{
}

/// Removing the name that was just registered gives back the registry as it
/// was before.
pub proof fn law_remove_undoes_register(before: Map<Seq<char>, IndexDefinitionView>, d: IndexDefinitionView)
    requires
        !before.contains_key(d.name),
    ensures
        before.insert(d.name, d).remove(d.name) == before,
{
    assert(before.insert(d.name, d).remove(d.name) =~= before);
}

/// Upserting the same definition twice leaves the registry as one upsert
/// does.
pub proof fn law_upsert_idempotent(before: Map<Seq<char>, IndexDefinitionView>, d: IndexDefinitionView)
    ensures
        before.insert(d.name, d).insert(d.name, d) == before.insert(d.name, d),
{
    assert(before.insert(d.name, d).insert(d.name, d) =~= before.insert(d.name, d));
}

/// After a removal the name is unknown, whatever was registered under it.
pub proof fn law_absent_after_remove(before: Map<Seq<char>, IndexDefinitionView>, name: Seq<char>)
    ensures
        !before.remove(name).contains_key(name),
{
}

} // verus!
