//! Schemas: ordered, uniquely named fields with their types and metadata.
use vstd::prelude::*;
use crate::error::RelayError;
use crate::text::str_eq;
use crate::types::{same_type, str_debug, str_debug_text, RelayType};

verus! {

// ─── Key/value metadata ───────────────────────────────────────────

/// String key/value annotations; each key occurs at most once.
#[derive(Debug)]
pub struct Metadata {
    entries: Vec<(String, String)>,
}

/// No key occurs twice.
pub open spec fn keys_unique(es: Seq<(String, String)>) -> bool {
    forall|i: int, j: int| 0 <= i < j < es.len() ==> es[i].0@ != es[j].0@
}

/// The key/value map that a list of distinct-key entries represents.
pub open spec fn entries_map(es: Seq<(String, String)>) -> Map<Seq<char>, Seq<char>>
    decreases es.len(),
{
    if es.len() == 0 {
        Map::empty()
    } else {
        entries_map(es.drop_last()).insert(es.last().0@, es.last().1@)
    }
}

proof fn lemma_entries_map_dom(es: Seq<(String, String)>, k: Seq<char>)
    ensures
        entries_map(es).dom().contains(k) <==> exists|i: int| 0 <= i < es.len() && es[i].0@ == k,
    decreases es.len(),
{
    if es.len() > 0 {
        lemma_entries_map_dom(es.drop_last(), k);
        if exists|i: int| 0 <= i < es.len() && es[i].0@ == k {
            let i = choose|i: int| 0 <= i < es.len() && es[i].0@ == k;
            if i < es.len() - 1 {
                assert(es.drop_last()[i] == es[i]);
            }
        }
        if exists|i: int| 0 <= i < es.len() - 1 && es.drop_last()[i].0@ == k {
            let i = choose|i: int| 0 <= i < es.len() - 1 && es.drop_last()[i].0@ == k;
            assert(es[i] == es.drop_last()[i]);
        }
    }
}

proof fn lemma_entries_map_at(es: Seq<(String, String)>, i: int)
    requires
        keys_unique(es),
        0 <= i < es.len(),
    ensures
        entries_map(es).dom().contains(es[i].0@),
        entries_map(es)[es[i].0@] == es[i].1@,
    decreases es.len(),
{
    if i < es.len() - 1 {
        lemma_entries_map_at(es.drop_last(), i);
        assert(es.drop_last()[i] == es[i]);
    }
}

impl Metadata {
    #[verifier::type_invariant]
    spec fn wf(self) -> bool {
        keys_unique(self.entries@)
    }

    /// The key/value map held.
    pub closed spec fn map(self) -> Map<Seq<char>, Seq<char>> {
        entries_map(self.entries@)
    }

    /// No annotations.
    pub fn new() -> (r: Self)
        ensures
            r.map() == Map::<Seq<char>, Seq<char>>::empty(),
    {
        Metadata { entries: Vec::new() }
    }

    /// Number of keys.
    pub fn len(&self) -> (r: usize)
        ensures
            r == self.map().len(),
    {
        proof {
            use_type_invariant(self);
            lemma_entries_map_len(self.entries@);
        }
        self.entries.len()
    }

    /// Whether there are no keys.
    pub fn is_empty(&self) -> (r: bool)
        ensures
            r == (self.map().len() == 0),
    {
        proof {
            use_type_invariant(self);
            lemma_entries_map_len(self.entries@);
        }
        self.entries.len() == 0
    }

    fn position(&self, key: &str) -> (r: Option<usize>)
        ensures
            match r {
                Some(i) => i < self.entries@.len() && self.entries@[i as int].0@ == key@,
                None => forall|i: int| 0 <= i < self.entries@.len() ==> self.entries@[i].0@ != key@,
            },
    {
        let mut i: usize = 0;
        while i < self.entries.len()
            invariant
                i <= self.entries@.len(),
                forall|j: int| 0 <= j < i ==> self.entries@[j].0@ != key@,
            decreases self.entries@.len() - i,
        {
            if str_eq(self.entries[i].0.as_str(), key) {
                return Some(i);
            }
            i += 1;
        }
        None
    }

    /// The value stored under `key`, if any.
    pub fn get(&self, key: &str) -> (r: Option<&String>)
        ensures
            match r {
                Some(v) => self.map().dom().contains(key@) && v@ == self.map()[key@],
                None => !self.map().dom().contains(key@),
            },
    {
        proof {
            use_type_invariant(self);
            lemma_entries_map_dom(self.entries@, key@);
        }
        match self.position(key) {
            Some(i) => {
                proof {
                    lemma_entries_map_at(self.entries@, i as int);
                }
                Some(&self.entries[i].1)
            },
            None => None,
        }
    }

    /// Whether `key` is present.
    pub fn contains_key(&self, key: &str) -> (r: bool)
        ensures
            r == self.map().dom().contains(key@),
    {
        proof {
            use_type_invariant(self);
            lemma_entries_map_dom(self.entries@, key@);
        }
        self.position(key).is_some()
    }

    /// Stores `value` under `key`, replacing an earlier value.
    pub fn insert(&mut self, key: String, value: String)
        ensures
            final(self).map() == old(self).map().insert(key@, value@),
    {
        proof {
            use_type_invariant(&*self);
        }
        match self.position(key.as_str()) {
            Some(i) => {
                let ghost es = self.entries@;
                let mut entries = Vec::new();
                std::mem::swap(&mut entries, &mut self.entries);
                entries.set(i, (key, value));
                proof {
                    assert(keys_unique(entries@));
                    lemma_entries_map_update(es, i as int, entries@[i as int]);
                }
                self.entries = entries;
            },
            None => {
                let ghost es = self.entries@;
                let mut entries = Vec::new();
                std::mem::swap(&mut entries, &mut self.entries);
                entries.push((key, value));
                proof {
                    assert(entries@.drop_last() =~= es);
                }
                self.entries = entries;
            },
        }
    }
}

proof fn lemma_entries_map_len(es: Seq<(String, String)>)
    requires
        keys_unique(es),
    ensures
        entries_map(es).len() == es.len(),
        entries_map(es).dom().finite(),
    decreases es.len(),
{
    if es.len() > 0 {
        let rest = es.drop_last();
        lemma_entries_map_len(rest);
        lemma_entries_map_dom(rest, es.last().0@);
        assert(!entries_map(rest).dom().contains(es.last().0@)) by {
            if exists|i: int| 0 <= i < rest.len() && rest[i].0@ == es.last().0@ {
                let i = choose|i: int| 0 <= i < rest.len() && rest[i].0@ == es.last().0@;
                assert(es[i] == rest[i]);
            }
        }
    }
}

proof fn lemma_entries_map_update(es: Seq<(String, String)>, i: int, e: (String, String))
    requires
        keys_unique(es),
        0 <= i < es.len(),
        es[i].0@ == e.0@,
    ensures
        entries_map(es.update(i, e)) == entries_map(es).insert(e.0@, e.1@),
    decreases es.len(),
{
    let es2 = es.update(i, e);
    if i == es.len() - 1 {
        assert(es2.drop_last() =~= es.drop_last());
        assert(entries_map(es2) =~= entries_map(es).insert(e.0@, e.1@));
    } else {
        lemma_entries_map_update(es.drop_last(), i, e);
        assert(es2.drop_last() =~= es.drop_last().update(i, e));
        lemma_entries_map_dom(es.drop_last(), es.last().0@);
        assert(es.last().0@ != e.0@) by {
            assert(es[i].0@ != es[es.len() - 1].0@);
        }
        assert(entries_map(es2) =~= entries_map(es).insert(e.0@, e.1@));
    }
}

// ─── Fields ───────────────────────────────────────────────────────

/// A field in a Relay schema.
#[derive(Debug, Clone)]
pub struct RelayField {
    pub name: String,
    pub dtype: RelayType,
    pub nullable: bool,
    pub metadata: Metadata,
}

/// `a` is a copy of `b`.
pub open spec fn same_field(a: RelayField, b: RelayField) -> bool {
    &&& a.name@ == b.name@
    &&& same_type(a.dtype, b.dtype)
    &&& a.nullable == b.nullable
    &&& a.metadata.map() == b.metadata.map()
}

impl RelayField {
    /// A nullable field without metadata.
    pub fn new(name: &str, dtype: RelayType) -> (r: Self)
        ensures
            r.name@ == name@,
            r.dtype == dtype,
            r.nullable,
            r.metadata.map() == Map::<Seq<char>, Seq<char>>::empty(),
    {
        RelayField { name: name.to_string(), dtype, nullable: true, metadata: Metadata::new() }
    }

    /// Sets whether the field may hold nulls.
    pub fn with_nullable(self, nullable: bool) -> (r: Self)
        ensures
            r == (RelayField { nullable, ..self }),
    {
        let mut f = self;
        f.nullable = nullable;
        f
    }

    /// Adds (or replaces) one metadata entry.
    pub fn with_metadata(self, key: &str, value: &str) -> (r: Self)
        ensures
            r.name == self.name,
            r.dtype == self.dtype,
            r.nullable == self.nullable,
            r.metadata.map() == self.metadata.map().insert(key@, value@),
    {
        let mut f = self;
        f.metadata.insert(key.to_string(), value.to_string());
        f
    }

    /// A copy of this field.
    pub fn copy(&self) -> (r: Self)
        ensures
            same_field(r, *self),
    {
        RelayField {
            name: self.name.clone(),
            dtype: self.dtype.deep_copy(),
            nullable: self.nullable,
            metadata: self.metadata.copy(),
        }
    }
}

impl Metadata {
    /// A copy of these annotations.
    pub fn copy(&self) -> (r: Self)
        ensures
            r.map() == self.map(),
    {
        proof {
            use_type_invariant(self);
        }
        let mut entries: Vec<(String, String)> = Vec::new();
        let mut i: usize = 0;
        while i < self.entries.len()
            invariant
                i <= self.entries@.len(),
                entries@.len() == i,
                keys_unique(self.entries@),
                forall|j: int| 0 <= j < i ==> (#[trigger] entries@[j]).0@ == self.entries@[j].0@
                    && entries@[j].1@ == self.entries@[j].1@,
            decreases self.entries@.len() - i,
        {
            let k = self.entries[i].0.clone();
            let v = self.entries[i].1.clone();
            let ghost prev = entries@;
            entries.push((k, v));
            assert(forall|j: int| 0 <= j < i ==> entries@[j] == prev[j]);
            i += 1;
        }
        proof {
            lemma_entries_map_same(entries@, self.entries@);
        }
        Metadata { entries }
    }
}

proof fn lemma_entries_map_same(a: Seq<(String, String)>, b: Seq<(String, String)>)
    requires
        a.len() == b.len(),
        forall|j: int| 0 <= j < a.len() ==> (#[trigger] a[j]).0@ == b[j].0@ && a[j].1@ == b[j].1@,
    ensures
        entries_map(a) == entries_map(b),
        keys_unique(b) ==> keys_unique(a),
    decreases a.len(),
{
    if a.len() > 0 {
        assert forall|j: int| 0 <= j < a.len() - 1 implies (#[trigger] a.drop_last()[j]).0@
            == b.drop_last()[j].0@ && a.drop_last()[j].1@ == b.drop_last()[j].1@ by {
            assert(a.drop_last()[j] == a[j]);
            assert(b.drop_last()[j] == b[j]);
        }
        lemma_entries_map_same(a.drop_last(), b.drop_last());
        assert(a[a.len() - 1].0@ == b[b.len() - 1].0@);
        if keys_unique(b) {
            assert forall|x: int, y: int| 0 <= x < y < a.len() implies a[x].0@ != a[y].0@ by {
                assert(b[x].0@ != b[y].0@);
                assert(a[x].0@ == b[x].0@);
                assert(a[y].0@ == b[y].0@);
            }
        }
    }
}

// ─── Schemas ──────────────────────────────────────────────────────

/// The field names, in order.
pub open spec fn field_names_of(fs: Seq<RelayField>) -> Seq<Seq<char>> {
    Seq::new(fs.len(), |i: int| fs[i].name@)
}

/// No name occurs twice.
pub open spec fn distinct_names(ns: Seq<Seq<char>>) -> bool {
    forall|i: int, j: int| 0 <= i < j < ns.len() ==> ns[i] != ns[j]
}

/// `j` is the first position whose name already occurred before it.
pub open spec fn first_repeat(ns: Seq<Seq<char>>, j: int) -> bool {
    &&& 0 <= j < ns.len()
    &&& distinct_names(ns.subrange(0, j))
    &&& exists|i: int| 0 <= i < j && ns[i] == ns[j]
}

/// No two fields share a name.
pub open spec fn names_unique(fs: Seq<RelayField>) -> bool {
    distinct_names(field_names_of(fs))
}

/// `j` is the first field whose name already occurred before it.
pub open spec fn first_duplicate(fs: Seq<RelayField>, j: int) -> bool {
    first_repeat(field_names_of(fs), j)
}

/// `{:?}` of a list of names: `["a", "b"]`.
pub open spec fn names_debug_text(ns: Seq<Seq<char>>) -> Seq<char> {
    "["@ + names_debug_join(ns) + "]"@
}

pub open spec fn names_debug_join(ns: Seq<Seq<char>>) -> Seq<char>
    decreases ns.len(),
{
    if ns.len() == 0 {
        Seq::empty()
    } else if ns.len() == 1 {
        str_debug_text(ns[0])
    } else {
        names_debug_join(ns.drop_last()) + ", "@ + str_debug_text(ns.last())
    }
}

/// Message for a schema built with a repeated name.
pub open spec fn duplicate_text(name: Seq<char>) -> Seq<char> {
    "duplicate column name: "@ + name
}

/// The error for a repeated name.
pub open spec fn is_duplicate_error(e: RelayError, name: Seq<char>) -> bool {
    e matches RelayError::Schema(m) && m@ == duplicate_text(name)
}

/// Message for a lookup of a missing column.
pub open spec fn not_found_text(name: Seq<char>, fs: Seq<RelayField>) -> Seq<char> {
    "column not found: "@ + name + ". Available: "@ + names_debug_text(field_names_of(fs))
}

/// The error for a missing column.
pub open spec fn is_not_found_error(e: RelayError, name: Seq<char>, fs: Seq<RelayField>) -> bool {
    e matches RelayError::Schema(m) && m@ == not_found_text(name, fs)
}

/// A field is called `n`.
pub open spec fn has_name(fs: Seq<RelayField>, n: Seq<char>) -> bool {
    exists|i: int| 0 <= i < fs.len() && fs[i].name@ == n
}

/// The character sequences of a list of string slices.
pub open spec fn strs_view(ns: Seq<&str>) -> Seq<Seq<char>> {
    Seq::new(ns.len(), |k: int| ns[k]@)
}

/// `k` is the first requested name that no field carries.
pub open spec fn first_missing(fs: Seq<RelayField>, ns: Seq<Seq<char>>, k: int) -> bool {
    &&& 0 <= k < ns.len()
    &&& !has_name(fs, ns[k])
    &&& forall|k2: int| 0 <= k2 < k ==> has_name(fs, ns[k2])
}

/// A schema describes the structure of a DataFrame or RecordBatch.
#[derive(Debug)]
pub struct RelaySchema {
    fields: Vec<RelayField>,
    metadata: Metadata,
}

impl RelaySchema {
    #[verifier::type_invariant]
    spec fn wf(self) -> bool {
        names_unique(self.fields@)
    }

    /// The fields, in order.
    pub closed spec fn field_list(&self) -> Seq<RelayField> {
        self.fields@
    }

    /// Schema-level metadata.
    pub closed spec fn metadata_map(&self) -> Map<Seq<char>, Seq<char>> {
        self.metadata.map()
    }

    /// Builds a schema; fails on the first field whose name repeats an earlier one.
    pub fn new(fields: Vec<RelayField>) -> (r: Result<Self, RelayError>)
        ensures
            match r {
                Ok(s) => names_unique(fields@) && s.field_list() == fields@
                    && s.metadata_map() == Map::<Seq<char>, Seq<char>>::empty(),
                Err(e) => !names_unique(fields@) && exists|j: int|
                    first_duplicate(fields@, j) && is_duplicate_error(e, fields@[j].name@),
            },
    {
        let ghost ns = field_names_of(fields@);
        let mut j: usize = 0;
        while j < fields.len()
            invariant
                j <= fields@.len(),
                ns == field_names_of(fields@),
                distinct_names(ns.subrange(0, j as int)),
            decreases fields@.len() - j,
        {
            let mut i: usize = 0;
            while i < j
                invariant
                    i <= j < fields@.len(),
                    ns == field_names_of(fields@),
                    distinct_names(ns.subrange(0, j as int)),
                    forall|k: int| 0 <= k < i ==> ns[k] != ns[j as int],
                decreases j - i,
            {
                if str_eq(fields[i].name.as_str(), fields[j].name.as_str()) {
                    let mut m = String::from_str("duplicate column name: ");
                    m.append(fields[j].name.as_str());
                    proof {
                        assert(0 <= i < j && ns[i as int] == ns[j as int]);
                        assert(first_duplicate(fields@, j as int));
                        assert(!distinct_names(ns));
                    }
                    return Err(RelayError::Schema(m));
                }
                i += 1;
            }
            proof {
                let sub = ns.subrange(0, j + 1);
                assert forall|a: int, b: int| 0 <= a < b < j + 1 implies #[trigger] sub[a]
                    != #[trigger] sub[b] by {
                    if b < j {
                        assert(ns.subrange(0, j as int)[a] == ns[a]);
                        assert(ns.subrange(0, j as int)[b] == ns[b]);
                    }
                }
            }
            j += 1;
        }
        assert(ns.subrange(0, ns.len() as int) =~= ns);
        Ok(RelaySchema { fields, metadata: Metadata::new() })
    }

    /// Number of fields (whose names never repeat).
    pub fn len(&self) -> (r: usize)
        ensures
            r == self.field_list().len(),
            names_unique(self.field_list()),
    {
        proof {
            use_type_invariant(self);
        }
        self.fields.len()
    }

    /// Whether the schema has no fields.
    pub fn is_empty(&self) -> (r: bool)
        ensures
            r == (self.field_list().len() == 0),
    {
        self.fields.len() == 0
    }

    /// The field at `index`.
    pub fn field(&self, index: usize) -> (r: Result<&RelayField, RelayError>)
        ensures
            index < self.field_list().len() ==> r == Ok::<&RelayField, RelayError>(
                &self.field_list()[index as int],
            ),
            index >= self.field_list().len() ==> (r matches Err(RelayError::OutOfBounds {
                index: i,
                len: n,
            }) && i == index && n == self.field_list().len()),
    {
        if index < self.fields.len() {
            Ok(&self.fields[index])
        } else {
            Err(RelayError::OutOfBounds { index, len: self.fields.len() })
        }
    }

    fn find(&self, name: &str) -> (r: Option<usize>)
        ensures
            match r {
                Some(i) => i < self.field_list().len() && self.field_list()[i as int].name@ == name@,
                None => forall|i: int|
                    0 <= i < self.field_list().len() ==> self.field_list()[i].name@ != name@,
            },
    {
        let mut i: usize = 0;
        while i < self.fields.len()
            invariant
                i <= self.fields@.len(),
                forall|j: int| 0 <= j < i ==> self.fields@[j].name@ != name@,
            decreases self.fields@.len() - i,
        {
            if str_eq(self.fields[i].name.as_str(), name) {
                return Some(i);
            }
            i += 1;
        }
        None
    }

    fn not_found(&self, name: &str) -> (e: RelayError)
        ensures
            is_not_found_error(e, name@, self.field_list()),
    {
        let mut m = String::from_str("column not found: ");
        m.append(name);
        m.append(". Available: ");
        let ghost head = m@;
        m.append("[");
        let mut i: usize = 0;
        let ghost start = m@;
        while i < self.fields.len()
            invariant
                i <= self.fields@.len(),
                m@ == start + names_debug_join(field_names_of(self.fields@).subrange(0, i as int)),
            decreases self.fields@.len() - i,
        {
            let ghost names = field_names_of(self.fields@);
            proof {
                assert(names.subrange(0, i + 1).drop_last() =~= names.subrange(0, i as int));
            }
            if i > 0 {
                m.append(", ");
            }
            let d = str_debug(self.fields[i].name.as_str());
            m.append(d.as_str());
            i += 1;
        }
        m.append("]");
        assert(field_names_of(self.fields@).subrange(0, self.fields@.len() as int)
            =~= field_names_of(self.fields@));
        assert(m@ =~= not_found_text(name@, self.fields@));
        RelayError::Schema(m)
    }

    /// Position of the field called `name`.
    pub fn column_index(&self, name: &str) -> (r: Result<usize, RelayError>)
        ensures
            match r {
                Ok(i) => i < self.field_list().len() && self.field_list()[i as int].name@ == name@,
                Err(e) => is_not_found_error(e, name@, self.field_list()) && forall|i: int|
                    0 <= i < self.field_list().len() ==> self.field_list()[i].name@ != name@,
            },
    {
        match self.find(name) {
            Some(i) => Ok(i),
            None => Err(self.not_found(name)),
        }
    }

    /// The field called `name`.
    pub fn field_by_name(&self, name: &str) -> (r: Result<&RelayField, RelayError>)
        ensures
            match r {
                Ok(f) => exists|i: int|
                    0 <= i < self.field_list().len() && *f == self.field_list()[i] && f.name@
                        == name@,
                Err(e) => is_not_found_error(e, name@, self.field_list()) && forall|i: int|
                    0 <= i < self.field_list().len() ==> self.field_list()[i].name@ != name@,
            },
    {
        match self.column_index(name) {
            Ok(i) => Ok(&self.fields[i]),
            Err(e) => Err(e),
        }
    }

    /// Field names, in order.
    pub fn field_names(&self) -> (r: Vec<&str>)
        ensures
            r@.len() == self.field_list().len(),
            forall|i: int| 0 <= i < r@.len() ==> r@[i]@ == self.field_list()[i].name@,
    {
        let mut out: Vec<&str> = Vec::new();
        let mut i: usize = 0;
        while i < self.fields.len()
            invariant
                i <= self.fields@.len(),
                out@.len() == i,
                forall|j: int| 0 <= j < i ==> out@[j]@ == self.fields@[j].name@,
            decreases self.fields@.len() - i,
        {
            out.push(self.fields[i].name.as_str());
            i += 1;
        }
        out
    }

    /// All fields, in order.
    pub fn fields(&self) -> (r: &[RelayField])
        ensures
            r@ == self.field_list(),
    {
        self.fields.as_slice()
    }

    /// Schema-level metadata.
    pub fn metadata(&self) -> (r: &Metadata)
        ensures
            r.map() == self.metadata_map(),
    {
        &self.metadata
    }

    /// A copy of this schema.
    pub fn copy(&self) -> (r: Self)
        ensures
            r.field_list().len() == self.field_list().len(),
            forall|i: int|
                0 <= i < r.field_list().len() ==> same_field(r.field_list()[i], self.field_list()[i]),
            r.metadata_map() == self.metadata_map(),
    {
        proof {
            use_type_invariant(self);
        }
        let mut fields: Vec<RelayField> = Vec::new();
        let mut i: usize = 0;
        while i < self.fields.len()
            invariant
                i <= self.fields@.len(),
                fields@.len() == i,
                names_unique(self.fields@),
                forall|j: int| 0 <= j < i ==> same_field(#[trigger] fields@[j], self.fields@[j]),
            decreases self.fields@.len() - i,
        {
            fields.push(self.fields[i].copy());
            i += 1;
        }
        assert(names_unique(fields@)) by {
            assert forall|a: int| 0 <= a < fields@.len() implies #[trigger] field_names_of(fields@)[a]
                == field_names_of(self.fields@)[a] by {
                assert(same_field(fields@[a], self.fields@[a]));
            }
            assert(field_names_of(fields@) =~= field_names_of(self.fields@));
        }
        RelaySchema { fields, metadata: self.metadata.copy() }
    }

    /// The schema of the named fields, in the order given; fails on the first
    /// missing name, then on the first name given twice.
    pub fn project(&self, names: &[&str]) -> (r: Result<RelaySchema, RelayError>)
        ensures
            match r {
                Ok(s) => {
                    &&& forall|k: int|
                        0 <= k < names@.len() ==> has_name(self.field_list(), strs_view(names@)[k])
                    &&& distinct_names(strs_view(names@))
                    &&& s.field_list().len() == names@.len()
                    &&& forall|k: int|
                        0 <= k < names@.len() ==> (#[trigger] s.field_list()[k]).name@ == names@[k]@
                            && exists|i: int|
                            0 <= i < self.field_list().len() && self.field_list()[i].name@
                                == names@[k]@ && same_field(s.field_list()[k], self.field_list()[i])
                    &&& s.metadata_map() == Map::<Seq<char>, Seq<char>>::empty()
                },
                Err(e) => {
                    ||| exists|k: int|
                        first_missing(self.field_list(), strs_view(names@), k) && is_not_found_error(
                            e,
                            names@[k]@,
                            self.field_list(),
                        )
                    ||| (forall|k: int|
                        0 <= k < names@.len() ==> has_name(self.field_list(), strs_view(names@)[k]))
                        && exists|j: int|
                        first_repeat(strs_view(names@), j) && is_duplicate_error(e, names@[j]@)
                },
            },
    {
        let ghost nv = strs_view(names@);
        let mut fields: Vec<RelayField> = Vec::new();
        let mut k: usize = 0;
        while k < names.len()
            invariant
                k <= names@.len(),
                nv == strs_view(names@),
                fields@.len() == k,
                forall|k2: int| 0 <= k2 < k ==> has_name(self.field_list(), nv[k2]),
                forall|k2: int|
                    0 <= k2 < k ==> (#[trigger] fields@[k2]).name@ == names@[k2]@ && exists|i: int|
                        0 <= i < self.field_list().len() && self.field_list()[i].name@
                            == names@[k2]@ && same_field(fields@[k2], self.field_list()[i]),
            decreases names@.len() - k,
        {
            match self.field_by_name(names[k]) {
                Ok(f) => {
                    let c = f.copy();
                    fields.push(c);
                },
                Err(e) => {
                    proof {
                        assert(first_missing(self.field_list(), nv, k as int));
                    }
                    return Err(e);
                },
            }
            k += 1;
        }
        let ghost fs = fields@;
        proof {
            assert(field_names_of(fs) =~= nv);
        }
        match RelaySchema::new(fields) {
            Ok(s) => Ok(s),
            Err(e) => Err(e),
        }
    }

    /// Whether a field is called `name`.
    pub fn contains(&self, name: &str) -> (r: bool)
        ensures
            r == exists|i: int|
                0 <= i < self.field_list().len() && self.field_list()[i].name@ == name@,
    {
        self.find(name).is_some()
    }
}

impl Clone for Metadata {
    fn clone(&self) -> (r: Self)
        ensures
            r.map() == self.map(),
    {
        self.copy()
    }
}

impl Clone for RelaySchema {
    fn clone(&self) -> (r: Self)
        ensures
            r.field_list().len() == self.field_list().len(),
            forall|i: int|
                0 <= i < r.field_list().len() ==> same_field(r.field_list()[i], self.field_list()[i]),
            r.metadata_map() == self.metadata_map(),
    {
        self.copy()
    }
}

} // verus!
