//! Schemas and the document: field schemas, struct schemas with their
//! instances and primary-key index, and the context holding globals and
//! structs.
use vstd::prelude::*;
use crate::error::TycoError;
use crate::utils;
use crate::value::SpecField;
use crate::value::SpecInstance;
use crate::value::SpecValue;
use crate::value::TycoField;
use crate::value::TycoInstance;
use crate::value::TycoValue;
use crate::value::clone_instance;
use crate::value::clone_value;
use crate::value::field_model;
use crate::value::fields_model;
use crate::value::find_field_idx;
use crate::value::instance_model;
use crate::value::lemma_fields_model_index;
use crate::value::lemma_fields_model_push;
use crate::value::lemma_fields_model_update;
use crate::value::spec_lookup;
use crate::value::spec_remove_field;
use crate::value::spec_set_field;
use crate::value::spec_template_text;
use crate::value::value_model;

verus! {

// ---------------------------------------------------------------------------
// Field schemas
// ---------------------------------------------------------------------------
/// Model of a field schema.
pub struct SpecFieldSchema {
    pub name: Seq<char>,
    pub ty_name: Seq<char>,
    pub is_primary_key: bool,
    pub is_nullable: bool,
    pub is_array: bool,
    pub default_value: Option<SpecValue>,
}

/// One declared field of a struct: name, type, the `*`/`?`/`[]` flags, and
/// an optional default value.
#[derive(Debug, PartialEq)]
pub struct FieldSchema {
    pub name: String,
    pub ty_name: String,
    pub is_primary_key: bool,
    pub is_nullable: bool,
    pub is_array: bool,
    pub default_value: Option<TycoValue>,
}

pub open spec fn schema_model(f: FieldSchema) -> SpecFieldSchema {
    SpecFieldSchema {
        name: f.name@,
        ty_name: f.ty_name@,
        is_primary_key: f.is_primary_key,
        is_nullable: f.is_nullable,
        is_array: f.is_array,
        default_value: match f.default_value {
            None => None,
            Some(v) => Some(value_model(v)),
        },
    }
}

pub open spec fn schemas_model(s: Seq<FieldSchema>) -> Seq<SpecFieldSchema>
    decreases s,
{
    if s.len() == 0 {
        Seq::empty()
    } else {
        seq![schema_model(s[0])] + schemas_model(s.skip(1))
    }
}

pub proof fn lemma_schemas_model_index(s: Seq<FieldSchema>)
    ensures
        schemas_model(s).len() == s.len(),
        forall|i: int| 0 <= i < s.len() ==> schemas_model(s)[i] == schema_model(s[i]),
    decreases s,
{
    if s.len() > 0 {
        lemma_schemas_model_index(s.skip(1));
    }
}

impl FieldSchema {
    /// A plain field: no flags, no default.
    pub fn new(name: &str, ty_name: &str) -> (r: FieldSchema)
        ensures
            schema_model(r) == (SpecFieldSchema {
                name: name@,
                ty_name: ty_name@,
                is_primary_key: false,
                is_nullable: false,
                is_array: false,
                default_value: None,
            }),
    {
        FieldSchema {
            name: String::from_str(name),
            ty_name: String::from_str(ty_name),
            is_primary_key: false,
            is_nullable: false,
            is_array: false,
            default_value: None,
        }
    }
}

/// An owned copy with the same model.
pub fn clone_schema(f: &FieldSchema) -> (r: FieldSchema)
    ensures
        schema_model(r) == schema_model(*f),
{
    FieldSchema {
        name: f.name.clone(),
        ty_name: f.ty_name.clone(),
        is_primary_key: f.is_primary_key,
        is_nullable: f.is_nullable,
        is_array: f.is_array,
        default_value: match &f.default_value {
            None => None,
            Some(v) => Some(clone_value(v)),
        },
    }
}

pub fn clone_schemas(fields: &Vec<FieldSchema>) -> (r: Vec<FieldSchema>)
    ensures
        r@.len() == fields@.len(),
        forall|i: int| 0 <= i < fields@.len() ==> schema_model(r@[i]) == schema_model(fields@[i]),
{
    let mut out: Vec<FieldSchema> = Vec::new();
    let mut i: usize = 0;
    while i < fields.len()
        invariant
            i <= fields@.len(),
            out@.len() == i as int,
            forall|j: int|
                0 <= j < i as int ==> schema_model(out@[j]) == schema_model(fields@[j]),
        decreases fields@.len() - i,
    {
        out.push(clone_schema(&fields[i]));
        i = i + 1;
    }
    out
}

/// The declared field names, in order.
pub open spec fn schema_names(fields: Seq<SpecFieldSchema>) -> Seq<Seq<char>> {
    Seq::new(fields.len(), |i: int| fields[i].name)
}

/// Index of the first schema field named `name`.
pub open spec fn schema_index_of(fields: Seq<SpecFieldSchema>, name: Seq<char>) -> Option<int>
    decreases fields.len(),
{
    if fields.len() == 0 {
        None
    } else if fields[0].name == name {
        Some(0)
    } else {
        match schema_index_of(fields.skip(1), name) {
            None => None,
            Some(i) => Some(i + 1),
        }
    }
}

pub proof fn lemma_schema_index_first(fields: Seq<SpecFieldSchema>, name: Seq<char>)
    ensures
        schema_index_of(fields, name) is None ==> forall|j: int|
            0 <= j < fields.len() ==> fields[j].name != name,
        schema_index_of(fields, name) matches Some(i) ==> 0 <= i < fields.len() && fields[i].name
            == name && forall|j: int| 0 <= j < i ==> fields[j].name != name,
    decreases fields.len(),
{
    if fields.len() > 0 && fields[0].name != name {
        lemma_schema_index_first(fields.skip(1), name);
        assert(forall|j: int| 1 <= j < fields.len() ==> fields[j] == fields.skip(1)[j - 1]);
    }
}

/// Executable first-match search over schema fields.
pub fn find_schema_idx(fields: &Vec<FieldSchema>, name: &str) -> (r: Option<usize>)
    ensures
        r matches Some(i) ==> schema_index_of(schemas_model(fields@), name@) == Some(i as int) && i
            < fields@.len(),
        r is None ==> schema_index_of(schemas_model(fields@), name@) is None,
{
    proof {
        lemma_schemas_model_index(fields@);
        lemma_schema_index_first(schemas_model(fields@), name@);
    }
    let mut i: usize = 0;
    while i < fields.len()
        invariant
            i <= fields@.len(),
            schemas_model(fields@).len() == fields@.len(),
            forall|j: int|
                0 <= j < fields@.len() ==> schemas_model(fields@)[j] == schema_model(fields@[j]),
            forall|j: int| 0 <= j < i as int ==> schemas_model(fields@)[j].name != name@,
        decreases fields@.len() - i,
    {
        if utils::str_eq(fields[i].name.as_str(), name) {
            proof {
                lemma_schema_index_first(schemas_model(fields@), name@);
                let oi = schema_index_of(schemas_model(fields@), name@);
                assert(schemas_model(fields@)[i as int].name == name@);
                assert(oi is Some);
                let k = oi.unwrap();
                if k < i as int {
                    assert(schemas_model(fields@)[k].name != name@);
                }
                if k > i as int {
                    assert(schemas_model(fields@)[i as int].name != name@);
                }
                assert(oi == Some(i as int));
            }
            return Some(i);
        }
        i = i + 1;
    }
    proof {
        lemma_schema_index_first(schemas_model(fields@), name@);
    }
    None
}

// ---------------------------------------------------------------------------
// Struct schemas
// ---------------------------------------------------------------------------
/// Model of one entry of the primary-key index.
pub struct SpecIndexEntry {
    pub key: Seq<char>,
    pub instance: SpecInstance,
}

/// One entry of the primary-key index: rendered key text and an owned copy
/// of the instance.
#[derive(Debug, PartialEq)]
pub struct IndexEntry {
    pub key: String,
    pub instance: TycoInstance,
}

pub open spec fn entry_model(e: IndexEntry) -> SpecIndexEntry
    decreases e,
{
    SpecIndexEntry { key: e.key@, instance: instance_model(e.instance) }
}

pub open spec fn entries_model(s: Seq<IndexEntry>) -> Seq<SpecIndexEntry>
    decreases s,
{
    if s.len() == 0 {
        Seq::empty()
    } else {
        seq![entry_model(s[0])] + entries_model(s.skip(1))
    }
}

pub proof fn lemma_entries_model_index(s: Seq<IndexEntry>)
    ensures
        entries_model(s).len() == s.len(),
        forall|i: int| 0 <= i < s.len() ==> entries_model(s)[i] == entry_model(s[i]),
    decreases s,
{
    if s.len() > 0 {
        lemma_entries_model_index(s.skip(1));
    }
}

/// Index of the first entry for `key`.
pub open spec fn entry_index_of(entries: Seq<SpecIndexEntry>, key: Seq<char>) -> Option<int>
    decreases entries.len(),
{
    if entries.len() == 0 {
        None
    } else if entries[0].key == key {
        Some(0)
    } else {
        match entry_index_of(entries.skip(1), key) {
            None => None,
            Some(i) => Some(i + 1),
        }
    }
}

/// The instance stored under `key`.
pub open spec fn spec_index_lookup(entries: Seq<SpecIndexEntry>, key: Seq<char>) -> Option<
    SpecInstance,
> {
    match entry_index_of(entries, key) {
        None => None,
        Some(i) => Some(entries[i].instance),
    }
}

/// Storing under a key: replace in place, or append a new entry. A later
/// store for the same key overwrites the earlier one.
pub open spec fn spec_index_set(
    entries: Seq<SpecIndexEntry>,
    key: Seq<char>,
    inst: SpecInstance,
) -> Seq<SpecIndexEntry> {
    match entry_index_of(entries, key) {
        None => entries.push(SpecIndexEntry { key, instance: inst }),
        Some(i) => entries.update(i, SpecIndexEntry { key, instance: inst }),
    }
}

pub proof fn lemma_entry_index_first(entries: Seq<SpecIndexEntry>, key: Seq<char>)
    ensures
        entry_index_of(entries, key) is None ==> forall|j: int|
            0 <= j < entries.len() ==> entries[j].key != key,
        entry_index_of(entries, key) matches Some(i) ==> 0 <= i < entries.len() && entries[i].key
            == key && forall|j: int| 0 <= j < i ==> entries[j].key != key,
    decreases entries.len(),
{
    if entries.len() > 0 && entries[0].key != key {
        lemma_entry_index_first(entries.skip(1), key);
        assert(forall|j: int| 1 <= j < entries.len() ==> entries[j] == entries.skip(1)[j - 1]);
    }
}

fn find_entry_idx(entries: &Vec<IndexEntry>, key: &str) -> (r: Option<usize>)
    ensures
        r matches Some(i) ==> entry_index_of(entries_model(entries@), key@) == Some(i as int) && i
            < entries@.len(),
        r is None ==> entry_index_of(entries_model(entries@), key@) is None,
{
    proof {
        lemma_entries_model_index(entries@);
        lemma_entry_index_first(entries_model(entries@), key@);
    }
    let mut i: usize = 0;
    while i < entries.len()
        invariant
            i <= entries@.len(),
            entries_model(entries@).len() == entries@.len(),
            forall|j: int|
                0 <= j < entries@.len() ==> entries_model(entries@)[j] == entry_model(entries@[j]),
            forall|j: int| 0 <= j < i as int ==> entries_model(entries@)[j].key != key@,
        decreases entries@.len() - i,
    {
        if utils::str_eq(entries[i].key.as_str(), key) {
            proof {
                lemma_entry_index_first(entries_model(entries@), key@);
                let oi = entry_index_of(entries_model(entries@), key@);
                assert(entries_model(entries@)[i as int].key == key@);
                assert(oi is Some);
                let k = oi.unwrap();
                if k < i as int {
                    assert(entries_model(entries@)[k].key != key@);
                }
                if k > i as int {
                    assert(entries_model(entries@)[i as int].key != key@);
                }
                assert(oi == Some(i as int));
            }
            return Some(i);
        }
        i = i + 1;
    }
    proof {
        lemma_entry_index_first(entries_model(entries@), key@);
    }
    None
}

/// Model of a struct schema.
pub struct SpecStruct {
    pub name: Seq<char>,
    pub fields: Seq<SpecFieldSchema>,
    pub primary_key_field: Option<Seq<char>>,
    pub instances: Seq<SpecInstance>,
    pub index: Seq<SpecIndexEntry>,
}

/// A struct schema: its name, ordered field schemas, the primary-key field
/// (at most one), its instances, and the index built once per resolution.
#[derive(Debug, PartialEq)]
pub struct TycoStruct {
    pub name: String,
    pub fields: Vec<FieldSchema>,
    pub primary_key_field: Option<String>,
    pub instances: Vec<TycoInstance>,
    pub primary_index: Vec<IndexEntry>,
}

pub open spec fn instances_model(s: Seq<TycoInstance>) -> Seq<SpecInstance>
    decreases s,
{
    if s.len() == 0 {
        Seq::empty()
    } else {
        seq![instance_model(s[0])] + instances_model(s.skip(1))
    }
}

pub proof fn lemma_instances_model_index(s: Seq<TycoInstance>)
    ensures
        instances_model(s).len() == s.len(),
        forall|i: int| 0 <= i < s.len() ==> instances_model(s)[i] == instance_model(s[i]),
    decreases s,
{
    if s.len() > 0 {
        lemma_instances_model_index(s.skip(1));
    }
}

pub open spec fn struct_model(s: TycoStruct) -> SpecStruct
    decreases s,
{
    SpecStruct {
        name: s.name@,
        fields: schemas_model(s.fields@),
        primary_key_field: match s.primary_key_field {
            None => None,
            Some(n) => Some(n@),
        },
        instances: instances_model(s.instances@),
        index: entries_model(s.primary_index@),
    }
}

/// What `build_primary_index` computes: walk the instances in order; each
/// one that binds the primary-key field is stored under that value's
/// rendered text, a later instance overwriting an earlier one with the same
/// key.
pub open spec fn spec_build_index(
    instances: Seq<SpecInstance>,
    pk: Seq<char>,
    acc: Seq<SpecIndexEntry>,
) -> Seq<SpecIndexEntry>
    decreases instances.len(),
{
    if instances.len() == 0 {
        acc
    } else {
        let rest = instances.skip(1);
        match spec_lookup(instances[0].fields, pk) {
            None => spec_build_index(rest, pk, acc),
            Some(v) => spec_build_index(
                rest,
                pk,
                spec_index_set(acc, spec_template_text(v), instances[0]),
            ),
        }
    }
}

impl TycoStruct {
    /// An empty struct schema of the given name.
    pub fn new(name: &str) -> (r: TycoStruct)
        ensures
            struct_model(r) == (SpecStruct {
                name: name@,
                fields: Seq::empty(),
                primary_key_field: None,
                instances: Seq::empty(),
                index: Seq::empty(),
            }),
    {
        TycoStruct {
            name: String::from_str(name),
            fields: Vec::new(),
            primary_key_field: None,
            instances: Vec::new(),
            primary_index: Vec::new(),
        }
    }

    pub fn name(&self) -> (r: &String)
        ensures
            r@ == self.name@,
    {
        &self.name
    }

    pub fn fields(&self) -> (r: &Vec<FieldSchema>)
        ensures
            r == &self.fields,
    {
        &self.fields
    }

    pub fn instances(&self) -> (r: &Vec<TycoInstance>)
        ensures
            r == &self.instances,
    {
        &self.instances
    }

    /// The instance list, writable.
    pub fn instances_mut(&mut self) -> (r: &mut Vec<TycoInstance>)
        ensures
            *r == old(self).instances,
            final(self).instances == *final(r),
            final(self).name == old(self).name,
            final(self).fields == old(self).fields,
            final(self).primary_key_field == old(self).primary_key_field,
            final(self).primary_index == old(self).primary_index,
    {
        &mut self.instances
    }

    /// The field schemas, writable; the caller is trusted to keep the
    /// primary-key field consistent.
    pub fn fields_mut(&mut self) -> (r: &mut Vec<FieldSchema>)
        ensures
            *r == old(self).fields,
            final(self).fields == *final(r),
            final(self).name == old(self).name,
            final(self).instances == old(self).instances,
            final(self).primary_key_field == old(self).primary_key_field,
            final(self).primary_index == old(self).primary_index,
    {
        &mut self.fields
    }

    pub fn primary_key_field(&self) -> (r: &Option<String>)
        ensures
            r == &self.primary_key_field,
    {
        &self.primary_key_field
    }

    /// True when some field was declared primary key.
    pub fn has_primary_key(&self) -> (r: bool)
        ensures
            r == (struct_model(*self).primary_key_field is Some),
    {
        self.primary_key_field.is_some()
    }

    /// Appends a declared field; a primary-key field also becomes the
    /// struct's primary-key field name.
    pub fn add_field(&mut self, field: FieldSchema)
        ensures
            struct_model(*final(self)) == (SpecStruct {
                name: struct_model(*old(self)).name,
                fields: struct_model(*old(self)).fields.push(schema_model(field)),
                primary_key_field: if field.is_primary_key {
                    Some(field.name@)
                } else {
                    struct_model(*old(self)).primary_key_field
                },
                instances: struct_model(*old(self)).instances,
                index: struct_model(*old(self)).index,
            }),
    {
        if field.is_primary_key {
            self.primary_key_field = Some(field.name.clone());
        }
        let ghost oldfields = self.fields@;
        self.fields.push(field);
        proof {
            lemma_schemas_model_index(oldfields.push(field));
            lemma_schemas_model_index(oldfields);
            assert(schemas_model(oldfields.push(field)) =~= schemas_model(oldfields).push(
                schema_model(field),
            ));
        }
    }

    /// Appends one parsed instance.
    pub fn add_instance(&mut self, instance: TycoInstance)
        ensures
            struct_model(*final(self)) == (SpecStruct {
                name: struct_model(*old(self)).name,
                fields: struct_model(*old(self)).fields,
                primary_key_field: struct_model(*old(self)).primary_key_field,
                instances: struct_model(*old(self)).instances.push(instance_model(instance)),
                index: struct_model(*old(self)).index,
            }),
    {
        let ghost oldinst = self.instances@;
        self.instances.push(instance);
        proof {
            lemma_instances_model_index(oldinst.push(instance));
            lemma_instances_model_index(oldinst);
            assert(instances_model(oldinst.push(instance)) =~= instances_model(oldinst).push(
                instance_model(instance),
            ));
        }
    }

    /// Updates an already-declared field's default value; naming an
    /// undeclared field is a parse error, and nothing changes.
    pub fn set_default(&mut self, field_name: &str, value: Option<TycoValue>) -> (r: Result<
        (),
        TycoError,
    >)
        ensures
            r is Ok <==> schema_index_of(struct_model(*old(self)).fields, field_name@) is Some,
            r is Err ==> *final(self) == *old(self),
            r matches Err(e) ==> e is Parse,
            schema_index_of(struct_model(*old(self)).fields, field_name@) matches Some(i)
                ==> struct_model(*final(self)) == (SpecStruct {
                name: struct_model(*old(self)).name,
                fields: struct_model(*old(self)).fields.update(
                    i,
                    SpecFieldSchema {
                        default_value: match value {
                            None => None,
                            Some(v) => Some(value_model(v)),
                        },
                        ..struct_model(*old(self)).fields[i]
                    },
                ),
                primary_key_field: struct_model(*old(self)).primary_key_field,
                instances: struct_model(*old(self)).instances,
                index: struct_model(*old(self)).index,
            }),
    {
        match find_schema_idx(&self.fields, field_name) {
            None => {
                let mut m = String::new();
                m.append("Unknown field '");
                m.append(field_name);
                m.append("'");
                Err(TycoError::parse(m))
            },
            Some(i) => {
                let ghost oldfields = self.fields@;
                let mut f = self.fields.remove(i);
                f.default_value = value;
                let ghost f2 = f;
                self.fields.insert(i, f);
                proof {
                    assert(oldfields.remove(i as int).insert(i as int, f2) =~= oldfields.update(
                        i as int,
                        f2,
                    ));
                    lemma_schemas_model_index(oldfields.update(i as int, f2));
                    lemma_schemas_model_index(oldfields);
                    assert(schemas_model(oldfields.update(i as int, f2)) =~= schemas_model(
                        oldfields,
                    ).update(i as int, schema_model(f2)));
                }
                Ok(())
            },
        }
    }

    /// Rebuilds the primary-key index from the instances: later instances
    /// overwrite earlier ones under an equal key. Without a primary key the
    /// index is left empty.
    pub fn build_primary_index(&mut self)
        ensures
            final(self).name == old(self).name,
            final(self).fields == old(self).fields,
            final(self).primary_key_field == old(self).primary_key_field,
            final(self).instances == old(self).instances,
            struct_model(*old(self)).primary_key_field is None ==> entries_model(
                final(self).primary_index@,
            ) == Seq::<SpecIndexEntry>::empty(),
            struct_model(*old(self)).primary_key_field matches Some(pk) ==> entries_model(
                final(self).primary_index@,
            ) == spec_build_index(
                instances_model(old(self).instances@),
                pk,
                Seq::<SpecIndexEntry>::empty(),
            ),
    {
        self.primary_index = Vec::new();
        proof {
            assert(entries_model(self.primary_index@) =~= Seq::<SpecIndexEntry>::empty());
        }
        let pk = match &self.primary_key_field {
            None => {
                return ;
            },
            Some(p) => p.clone(),
        };
        let mut i: usize = 0;
        proof {
            assert(instances_model(self.instances@).skip(0) =~= instances_model(self.instances@));
            lemma_instances_model_index(self.instances@);
        }
        while i < self.instances.len()
            invariant
                i <= self.instances@.len(),
                self.name == old(self).name,
                self.fields == old(self).fields,
                self.instances == old(self).instances,
                self.primary_key_field == old(self).primary_key_field,
                old(self).primary_key_field matches Some(p) && pk@ == p@,
                instances_model(self.instances@).len() == self.instances@.len(),
                forall|j: int|
                    0 <= j < self.instances@.len() ==> instances_model(self.instances@)[j]
                        == instance_model(self.instances@[j]),
                spec_build_index(
                    instances_model(old(self).instances@),
                    pk@,
                    Seq::<SpecIndexEntry>::empty(),
                ) == spec_build_index(
                    instances_model(self.instances@).skip(i as int),
                    pk@,
                    entries_model(self.primary_index@),
                ),
            decreases self.instances@.len() - i,
        {
            let ghost insts = instances_model(self.instances@);
            proof {
                assert(insts.skip(i as int)[0] == insts[i as int]);
                assert(insts.skip(i as int).skip(1) =~= insts.skip(i as int + 1));
            }
            let inst = &self.instances[i];
            match inst.get_attribute(pk.as_str()) {
                None => {},
                Some(v) => {
                    let key = v.to_template_text();
                    let copy = clone_instance(inst);
                    let ghost oldentries = self.primary_index@;
                    match find_entry_idx(&self.primary_index, key.as_str()) {
                        Some(k) => {
                            let e = IndexEntry { key, instance: copy };
                            let ghost e2 = e;
                            let _ = self.primary_index.remove(k);
                            self.primary_index.insert(k, e);
                            proof {
                                assert(oldentries.remove(k as int).insert(k as int, e2)
                                    =~= oldentries.update(k as int, e2));
                                lemma_entries_model_index(oldentries.update(k as int, e2));
                                lemma_entries_model_index(oldentries);
                                assert(entries_model(oldentries.update(k as int, e2))
                                    =~= entries_model(oldentries).update(k as int, entry_model(e2)));
                            }
                        },
                        None => {
                            let e = IndexEntry { key, instance: copy };
                            let ghost e2 = e;
                            self.primary_index.push(e);
                            proof {
                                lemma_entries_model_index(oldentries.push(e2));
                                lemma_entries_model_index(oldentries);
                                assert(entries_model(oldentries.push(e2)) =~= entries_model(
                                    oldentries,
                                ).push(entry_model(e2)));
                            }
                        },
                    }
                    proof {
                        assert(entries_model(self.primary_index@) =~= spec_index_set(
                            entries_model(oldentries),
                            spec_template_text(spec_lookup(insts[i as int].fields, pk@).unwrap()),
                            insts[i as int],
                        ));
                    }
                },
            }
            i = i + 1;
        }
        proof {
            assert(instances_model(self.instances@).skip(self.instances@.len() as int).len() == 0);
        }
    }

    /// The indexed instance under `key`, if any.
    pub fn find_by_primary_key(&self, key: &str) -> (r: Option<&TycoInstance>)
        ensures
            r matches Some(inst) ==> spec_index_lookup(struct_model(*self).index, key@) == Some(
                instance_model(*inst),
            ),
            r is None ==> spec_index_lookup(struct_model(*self).index, key@) is None,
    {
        proof {
            lemma_entries_model_index(self.primary_index@);
        }
        match find_entry_idx(&self.primary_index, key) {
            Some(i) => Some(&self.primary_index[i].instance),
            None => None,
        }
    }
}

/// An owned copy with the same model.
pub fn clone_struct(s: &TycoStruct) -> (r: TycoStruct)
    ensures
        struct_model(r) == struct_model(*s),
{
    let fields = clone_schemas(&s.fields);
    let mut instances: Vec<TycoInstance> = Vec::new();
    let mut i: usize = 0;
    while i < s.instances.len()
        invariant
            i <= s.instances@.len(),
            instances@.len() == i as int,
            forall|j: int|
                0 <= j < i as int ==> instance_model(instances@[j]) == instance_model(
                    s.instances@[j],
                ),
        decreases s.instances@.len() - i,
    {
        instances.push(clone_instance(&s.instances[i]));
        i = i + 1;
    }
    let mut index: Vec<IndexEntry> = Vec::new();
    let mut k: usize = 0;
    while k < s.primary_index.len()
        invariant
            k <= s.primary_index@.len(),
            index@.len() == k as int,
            forall|j: int|
                0 <= j < k as int ==> entry_model(index@[j]) == entry_model(s.primary_index@[j]),
        decreases s.primary_index@.len() - k,
    {
        let e = &s.primary_index[k];
        index.push(IndexEntry { key: e.key.clone(), instance: clone_instance(&e.instance) });
        k = k + 1;
    }
    let r = TycoStruct {
        name: s.name.clone(),
        fields,
        primary_key_field: match &s.primary_key_field {
            None => None,
            Some(p) => Some(p.clone()),
        },
        instances,
        primary_index: index,
    };
    proof {
        lemma_schemas_model_index(r.fields@);
        lemma_schemas_model_index(s.fields@);
        assert(schemas_model(r.fields@) =~= schemas_model(s.fields@));
        lemma_instances_model_index(r.instances@);
        lemma_instances_model_index(s.instances@);
        assert(instances_model(r.instances@) =~= instances_model(s.instances@));
        lemma_entries_model_index(r.primary_index@);
        lemma_entries_model_index(s.primary_index@);
        assert(entries_model(r.primary_index@) =~= entries_model(s.primary_index@));
    }
    r
}

// ---------------------------------------------------------------------------
// Coercion
// ---------------------------------------------------------------------------
/// What coercion does to one value under one field schema: string literal
/// text becomes the field's `int`, `float` or `bool` value; every other
/// combination passes through; array-typed fields pass through whole.
/// `None` is a malformed or out-of-range literal.
pub open spec fn spec_coerce(v: SpecValue, sch: SpecFieldSchema) -> Option<SpecValue> {
    if sch.is_array {
        Some(v)
    } else if sch.ty_name == "int"@ {
        match v {
            SpecValue::Str(sm) => match utils::spec_decimal_int(sm.text) {
                Some(x) => if i64::MIN as int <= x && x <= i64::MAX as int {
                    Some(SpecValue::Int(x))
                } else {
                    None
                },
                None => None,
            },
            _ => Some(v),
        }
    } else if sch.ty_name == "float"@ {
        match v {
            SpecValue::Str(sm) => match utils::float_normal_text(sm.text) {
                Some(t) => Some(SpecValue::Float(t)),
                None => None,
            },
            _ => Some(v),
        }
    } else if sch.ty_name == "bool"@ {
        match v {
            SpecValue::Str(sm) => Some(SpecValue::Bool(sm.text == "true"@ || sm.text == "True"@)),
            _ => Some(v),
        }
    } else {
        Some(v)
    }
}

/// Coerces one value to its field's declared type.
pub fn coerce_value(v: TycoValue, schema: &FieldSchema) -> (r: Result<TycoValue, TycoError>)
    ensures
        r matches Ok(v2) ==> spec_coerce(value_model(v), schema_model(*schema)) == Some(
            value_model(v2),
        ),
        r is Err <==> spec_coerce(value_model(v), schema_model(*schema)) is None,
        r matches Err(e) ==> e is Parse,
{
    if schema.is_array {
        return Ok(v);
    }
    let is_int = utils::str_eq(schema.ty_name.as_str(), "int");
    let is_float = utils::str_eq(schema.ty_name.as_str(), "float");
    let is_bool = utils::str_eq(schema.ty_name.as_str(), "bool");
    if is_int {
        match v {
            TycoValue::Str(sm) => {
                match utils::parse_decimal_i64(sm.value.as_str()) {
                    Some(x) => Ok(TycoValue::Int(x)),
                    None => {
                        let mut m = String::new();
                        m.append("Invalid int literal '");
                        m.append(sm.value.as_str());
                        m.append("'");
                        Err(TycoError::parse(m))
                    },
                }
            },
            other => Ok(other),
        }
    } else if is_float {
        match v {
            TycoValue::Str(sm) => {
                match utils::float_text(sm.value.as_str()) {
                    Some(t) => Ok(TycoValue::Float(t)),
                    None => {
                        let mut m = String::new();
                        m.append("Invalid float literal '");
                        m.append(sm.value.as_str());
                        m.append("'");
                        Err(TycoError::parse(m))
                    },
                }
            },
            other => Ok(other),
        }
    } else if is_bool {
        match v {
            TycoValue::Str(sm) => {
                let t = utils::str_eq(sm.value.as_str(), "true") || utils::str_eq(
                    sm.value.as_str(),
                    "True",
                );
                Ok(TycoValue::Bool(t))
            },
            other => Ok(other),
        }
    } else {
        Ok(v)
    }
}

/// Rebinds the synthetic `_argN` placeholders of an inline instance to the
/// schema's field names, by declared order.
pub open spec fn spec_rebind_from(
    fields: Seq<SpecField>,
    sch: Seq<SpecFieldSchema>,
    idx: nat,
) -> Seq<SpecField>
    decreases sch.len() - idx,
{
    if idx >= sch.len() {
        fields
    } else {
        let ph = "_arg"@ + utils::spec_u64_text(idx);
        let f2 = match spec_lookup(fields, ph) {
            Some(v) => spec_set_field(spec_remove_field(fields, ph), sch[idx as int].name, v),
            None => fields,
        };
        spec_rebind_from(f2, sch, idx + 1)
    }
}

/// Applies the schema's fields in order: an existing value is coerced, a
/// missing one takes the field's default (if any); either way the field
/// moves behind the fields already processed.
pub open spec fn spec_apply_fields(
    fields: Seq<SpecField>,
    sch: Seq<SpecFieldSchema>,
    idx: nat,
) -> Option<Seq<SpecField>>
    decreases sch.len() - idx,
{
    if idx >= sch.len() {
        Some(fields)
    } else {
        let fs = sch[idx as int];
        match spec_lookup(fields, fs.name) {
            Some(v) => match spec_coerce(v, fs) {
                None => None,
                Some(cv) => spec_apply_fields(
                    spec_set_field(spec_remove_field(fields, fs.name), fs.name, cv),
                    sch,
                    idx + 1,
                ),
            },
            None => match fs.default_value {
                Some(d) => spec_apply_fields(spec_set_field(fields, fs.name, d), sch, idx + 1),
                None => spec_apply_fields(fields, sch, idx + 1),
            },
        }
    }
}

pub open spec fn opt_values_prepend(p: Seq<SpecValue>, o: Option<Seq<SpecValue>>) -> Option<
    Seq<SpecValue>,
> {
    match o {
        None => None,
        Some(t) => Some(p + t),
    }
}

pub open spec fn opt_fields_prepend(p: Seq<SpecField>, o: Option<Seq<SpecField>>) -> Option<
    Seq<SpecField>,
> {
    match o {
        None => None,
        Some(t) => Some(p + t),
    }
}

/// The coercion walk over one value: arrays element-wise; an instance whose
/// struct has a known schema gets that schema applied; everything else
/// passes through. `fuel` bounds schema-application depth.
pub open spec fn spec_resolve_value(v: SpecValue, snap: Seq<SpecStruct>, fuel: nat) -> Option<
    SpecValue,
>
    decreases fuel, v,
{
    match v {
        SpecValue::Array(items) => match spec_resolve_values(items, snap, fuel) {
            None => None,
            Some(it2) => Some(SpecValue::Array(it2)),
        },
        SpecValue::Instance(m) => match spec_struct_lookup(snap, m.struct_name) {
            Some(sch) => match spec_apply_schema(m, sch, snap, fuel) {
                None => None,
                Some(m2) => Some(SpecValue::Instance(m2)),
            },
            None => Some(v),
        },
        _ => Some(v),
    }
}

pub open spec fn spec_resolve_values(
    items: Seq<SpecValue>,
    snap: Seq<SpecStruct>,
    fuel: nat,
) -> Option<Seq<SpecValue>>
    decreases fuel, items,
{
    if items.len() == 0 {
        Some(Seq::empty())
    } else {
        match spec_resolve_value(items[0], snap, fuel) {
            None => None,
            Some(v2) => match spec_resolve_values(items.skip(1), snap, fuel) {
                None => None,
                Some(rest) => Some(seq![v2] + rest),
            },
        }
    }
}

pub open spec fn spec_resolve_fields(
    fields: Seq<SpecField>,
    snap: Seq<SpecStruct>,
    fuel: nat,
) -> Option<Seq<SpecField>>
    decreases fuel, fields,
{
    if fields.len() == 0 {
        Some(Seq::empty())
    } else {
        match spec_resolve_value(fields[0].value, snap, fuel) {
            None => None,
            Some(v2) => match spec_resolve_fields(fields.skip(1), snap, fuel) {
                None => None,
                Some(rest) => Some(seq![SpecField { name: fields[0].name, value: v2 }] + rest),
            },
        }
    }
}

/// What one schema application does: rebind positionals, coerce values and
/// fill defaults, reorder to schema order, then walk the resulting values.
pub open spec fn spec_apply_schema(
    m: SpecInstance,
    sch: SpecStruct,
    snap: Seq<SpecStruct>,
    fuel: nat,
) -> Option<SpecInstance>
    decreases fuel, m,
{
    if fuel == 0 {
        None
    } else {
        let f1 = spec_rebind_from(m.fields, sch.fields, 0);
        match spec_apply_fields(f1, sch.fields, 0) {
            None => None,
            Some(f2) => {
                let f3 = crate::value::spec_enforce_order(f2, schema_names(sch.fields));
                match spec_resolve_fields(f3, snap, (fuel - 1) as nat) {
                    None => None,
                    Some(f4) => Some(SpecInstance { struct_name: m.struct_name, fields: f4 }),
                }
            },
        }
    }
}

/// Walks one value for the coercion pass, against the schema snapshot.
#[verifier::loop_isolation(false)]
pub fn resolve_value_with(v: &TycoValue, snap: &Vec<TycoStruct>, fuel: u64) -> (r: Result<
    TycoValue,
    TycoError,
>)
    ensures
        r matches Ok(v2) ==> spec_resolve_value(value_model(*v), structs_model(snap@), fuel as nat)
            == Some(value_model(v2)),
        r is Err <==> spec_resolve_value(value_model(*v), structs_model(snap@), fuel as nat)
            is None,
        r matches Err(e) ==> e is Parse,
    decreases fuel, *v,
{
    match v {
        TycoValue::Array(items) => {
            let ghost vm = crate::value::values_model(items@);
            let mut out: Vec<TycoValue> = Vec::new();
            let mut i: usize = 0;
            proof {
                crate::value::lemma_values_model_index(items@);
                assert(vm.skip(0) =~= vm);
                assert(crate::value::values_model(out@) =~= Seq::<SpecValue>::empty());
            }
            while i < items.len()
                invariant
                    i <= items@.len(),
                    vm == crate::value::values_model(items@),
                    vm.len() == items@.len(),
                    forall|j: int| 0 <= j < items@.len() ==> vm[j] == value_model(items@[j]),
                    opt_values_prepend(
                        crate::value::values_model(out@),
                        spec_resolve_values(vm.skip(i as int), structs_model(snap@), fuel as nat),
                    ) == spec_resolve_values(vm, structs_model(snap@), fuel as nat),
                decreases items@.len() - i,
            {
                proof {
                    assert(vm.skip(i as int)[0] == vm[i as int]);
                    assert(vm.skip(i as int).skip(1) =~= vm.skip(i as int + 1));
                    assert(decreases_to!(*v => items@[i as int]));
                }
                let ghost preout = crate::value::values_model(out@);
                match resolve_value_with(&items[i], snap, fuel) {
                    Err(e) => {
                        proof {
                            assert(spec_resolve_values(
                                vm.skip(i as int),
                                structs_model(snap@),
                                fuel as nat,
                            ) is None);
                        }
                        return Err(e);
                    },
                    Ok(v2) => {
                        let ghost oldout = out@;
                        out.push(v2);
                        proof {
                            crate::value::lemma_values_model_push(oldout, v2);
                            match spec_resolve_values(
                                vm.skip(i as int + 1),
                                structs_model(snap@),
                                fuel as nat,
                            ) {
                                None => {},
                                Some(rest) => {
                                    assert((preout + seq![value_model(v2)]) + rest =~= preout + (
                                    seq![value_model(v2)] + rest));
                                },
                            }
                        }
                    },
                }
                i = i + 1;
            }
            proof {
                assert(vm.skip(items@.len() as int).len() == 0);
                assert(spec_resolve_values(
                    vm.skip(items@.len() as int),
                    structs_model(snap@),
                    fuel as nat,
                ) == Some(Seq::<SpecValue>::empty()));
                assert(crate::value::values_model(out@) + Seq::<SpecValue>::empty()
                    =~= crate::value::values_model(out@));
            }
            Ok(TycoValue::Array(out))
        },
        TycoValue::Instance(inst) => {
            match find_struct_idx(snap, inst.struct_name.as_str()) {
                Some(si) => {
                    proof {
                        lemma_structs_model_index(snap@);
                        assert(decreases_to!(*v => *inst));
                    }
                    let m2 = apply_schema_with(inst, &snap[si], snap, fuel);
                    match m2 {
                        Ok(inst2) => Ok(TycoValue::Instance(inst2)),
                        Err(e) => Err(e),
                    }
                },
                None => Ok(crate::value::clone_value(v)),
            }
        },
        _ => Ok(crate::value::clone_value(v)),
    }
}

/// Applies a struct's schema to one instance for the coercion pass.
#[verifier::loop_isolation(false)]
pub fn apply_schema_with(
    inst: &TycoInstance,
    schema: &TycoStruct,
    snap: &Vec<TycoStruct>,
    fuel: u64,
) -> (r: Result<TycoInstance, TycoError>)
    ensures
        r matches Ok(i2) ==> spec_apply_schema(
            instance_model(*inst),
            struct_model(*schema),
            structs_model(snap@),
            fuel as nat,
        ) == Some(instance_model(i2)),
        r is Err <==> spec_apply_schema(
            instance_model(*inst),
            struct_model(*schema),
            structs_model(snap@),
            fuel as nat,
        ) is None,
        r matches Err(e) ==> e is Parse,
    decreases fuel, *inst,
{
    if fuel == 0 {
        let mut m = String::new();
        m.append("Value nesting exceeds the supported depth");
        return Err(TycoError::parse(m));
    }
    let ghost fm0 = fields_model(inst.fields@);
    let ghost sch = schemas_model(schema.fields@);
    let mut working = clone_instance(inst);
    let mut idx: usize = 0;
    proof {
        lemma_schemas_model_index(schema.fields@);
    }
    while idx < schema.fields.len()
        invariant
            idx <= schema.fields@.len(),
            sch == schemas_model(schema.fields@),
            sch.len() == schema.fields@.len(),
            forall|j: int| 0 <= j < sch.len() ==> sch[j] == schema_model(schema.fields@[j]),
            working.struct_name@ == inst.struct_name@,
            spec_rebind_from(fields_model(working.fields@), sch, idx as nat) == spec_rebind_from(
                fm0,
                sch,
                0,
            ),
            fm0 == fields_model(inst.fields@),
        decreases schema.fields@.len() - idx,
    {
        let mut ph = String::new();
        ph.append("_arg");
        let it = utils::u64_text(idx as u64);
        ph.append(it.as_str());
        proof {
            assert(ph@ == "_arg"@ + utils::spec_u64_text(idx as nat));
        }
        let ghost cur = fields_model(working.fields@);
        match working.remove_attribute(ph.as_str()) {
            Some(v) => {
                let nm = schema.fields[idx].name.clone();
                working.set_attribute(nm, v);
            },
            None => {},
        }
        idx = idx + 1;
    }
    proof {
        assert(spec_rebind_from(fields_model(working.fields@), sch, schema.fields@.len() as nat)
            == fields_model(working.fields@));
    }
    let ghost f1 = fields_model(working.fields@);
    let mut k: usize = 0;
    while k < schema.fields.len()
        invariant
            k <= schema.fields@.len(),
            sch == schemas_model(schema.fields@),
            sch.len() == schema.fields@.len(),
            forall|j: int| 0 <= j < sch.len() ==> sch[j] == schema_model(schema.fields@[j]),
            working.struct_name@ == inst.struct_name@,
            spec_apply_fields(fields_model(working.fields@), sch, k as nat) == spec_apply_fields(
                f1,
                sch,
                0,
            ),
        decreases schema.fields@.len() - k,
    {
        let ghost cur = fields_model(working.fields@);
        let fs = &schema.fields[k];
        match working.remove_attribute(fs.name.as_str()) {
            Some(v) => {
                match coerce_value(v, fs) {
                    Err(e) => {
                        proof {
                            assert(spec_apply_fields(cur, sch, k as nat) is None);
                        }
                        return Err(e);
                    },
                    Ok(cv) => {
                        let nm = fs.name.clone();
                        working.set_attribute(nm, cv);
                    },
                }
            },
            None => {
                match &fs.default_value {
                    Some(d) => {
                        let nm = fs.name.clone();
                        working.set_attribute(nm, crate::value::clone_value(d));
                    },
                    None => {},
                }
            },
        }
        k = k + 1;
    }
    proof {
        assert(spec_apply_fields(fields_model(working.fields@), sch, schema.fields@.len() as nat)
            == Some(fields_model(working.fields@)));
    }
    let ghost f2 = fields_model(working.fields@);
    working.enforce_order_from_schema(&schema.fields);
    let ghost f3 = fields_model(working.fields@);
    proof {
        assert(f3 == crate::value::spec_enforce_order(f2, schema_names(sch)));
    }
    let mut outf: Vec<TycoField> = Vec::new();
    let mut i2: usize = 0;
    proof {
        lemma_fields_model_index(working.fields@);
        assert(f3.skip(0) =~= f3);
        assert(fields_model(outf@) =~= Seq::<SpecField>::empty());
    }
    while i2 < working.fields.len()
        invariant
            i2 <= working.fields@.len(),
            fuel >= 1,
            f3 == fields_model(working.fields@),
            f3.len() == working.fields@.len(),
            forall|j: int|
                0 <= j < working.fields@.len() ==> f3[j] == field_model(working.fields@[j]),
            opt_fields_prepend(
                fields_model(outf@),
                spec_resolve_fields(
                    f3.skip(i2 as int),
                    structs_model(snap@),
                    (fuel - 1) as nat,
                ),
            ) == spec_resolve_fields(f3, structs_model(snap@), (fuel - 1) as nat),
        decreases working.fields@.len() - i2,
    {
        proof {
            assert(f3.skip(i2 as int)[0] == f3[i2 as int]);
            assert(f3.skip(i2 as int).skip(1) =~= f3.skip(i2 as int + 1));
        }
        let ghost preout = fields_model(outf@);
        let fv = &working.fields[i2];
        match resolve_value_with(&fv.value, snap, fuel - 1) {
            Err(e) => {
                proof {
                    assert(spec_resolve_fields(
                        f3.skip(i2 as int),
                        structs_model(snap@),
                        (fuel - 1) as nat,
                    ) is None);
                }
                return Err(e);
            },
            Ok(v2) => {
                let nf = TycoField { name: fv.name.clone(), value: v2 };
                let ghost oldout = outf@;
                outf.push(nf);
                proof {
                    crate::value::lemma_fields_model_push(oldout, nf);
                    assert(field_model(nf) == (SpecField {
                        name: f3[i2 as int].name,
                        value: value_model(v2),
                    }));
                    match spec_resolve_fields(
                        f3.skip(i2 as int + 1),
                        structs_model(snap@),
                        (fuel - 1) as nat,
                    ) {
                        None => {},
                        Some(rest) => {
                            assert((preout + seq![field_model(nf)]) + rest =~= preout + (seq![
                                field_model(nf),
                            ] + rest));
                        },
                    }
                }
            },
        }
        i2 = i2 + 1;
    }
    proof {
        assert(f3.skip(working.fields@.len() as int).len() == 0);
        assert(spec_resolve_fields(
            f3.skip(working.fields@.len() as int),
            structs_model(snap@),
            (fuel - 1) as nat,
        ) == Some(Seq::<SpecField>::empty()));
        assert(fields_model(outf@) + Seq::<SpecField>::empty() =~= fields_model(outf@));
    }
    Ok(TycoInstance { struct_name: working.struct_name, fields: outf })
}

// ---------------------------------------------------------------------------
// Reference resolution
// ---------------------------------------------------------------------------
/// Why reference resolution fails: the target struct was never declared, or
/// its index has no entry for the primary key.
pub enum SpecRefErr {
    UnknownStruct(Seq<char>),
    MissingKey(Seq<char>, Seq<char>),
}

pub open spec fn res_values_prepend(
    p: Seq<SpecValue>,
    o: Result<Seq<SpecValue>, SpecRefErr>,
) -> Result<Seq<SpecValue>, SpecRefErr> {
    match o {
        Err(e) => Err(e),
        Ok(t) => Ok(p + t),
    }
}

pub open spec fn res_fields_prepend(
    p: Seq<SpecField>,
    o: Result<Seq<SpecField>, SpecRefErr>,
) -> Result<Seq<SpecField>, SpecRefErr> {
    match o {
        Err(e) => Err(e),
        Ok(t) => Ok(p + t),
    }
}

/// The reference-resolution walk over one value: every reference looks up
/// its target struct (unknown struct is fatal) and its key in that struct's
/// index (missing key is fatal) and takes a copy of the match as payload;
/// arrays and instances are walked; a payload is not walked into.
pub open spec fn spec_resref_value(v: SpecValue, snap: Seq<SpecStruct>) -> Result<
    SpecValue,
    SpecRefErr,
>
    decreases v,
{
    match v {
        SpecValue::Reference(r) => match spec_struct_lookup(snap, r.struct_name) {
            None => Err(SpecRefErr::UnknownStruct(r.struct_name)),
            Some(sd) => match spec_index_lookup(sd.index, r.primary_key) {
                None => Err(SpecRefErr::MissingKey(r.struct_name, r.primary_key)),
                Some(inst) => Ok(
                    SpecValue::Reference(
                        crate::value::SpecReference {
                            struct_name: r.struct_name,
                            primary_key: r.primary_key,
                            resolved: Some(inst),
                        },
                    ),
                ),
            },
        },
        SpecValue::Array(items) => match spec_resref_values(items, snap) {
            Err(e) => Err(e),
            Ok(it2) => Ok(SpecValue::Array(it2)),
        },
        SpecValue::Instance(m) => match spec_resref_fields(m.fields, snap) {
            Err(e) => Err(e),
            Ok(f2) => Ok(
                SpecValue::Instance(SpecInstance { struct_name: m.struct_name, fields: f2 }),
            ),
        },
        _ => Ok(v),
    }
}

pub open spec fn spec_resref_values(items: Seq<SpecValue>, snap: Seq<SpecStruct>) -> Result<
    Seq<SpecValue>,
    SpecRefErr,
>
    decreases items,
{
    if items.len() == 0 {
        Ok(Seq::empty())
    } else {
        match spec_resref_value(items[0], snap) {
            Err(e) => Err(e),
            Ok(v2) => match spec_resref_values(items.skip(1), snap) {
                Err(e) => Err(e),
                Ok(rest) => Ok(seq![v2] + rest),
            },
        }
    }
}

pub open spec fn spec_resref_fields(fields: Seq<SpecField>, snap: Seq<SpecStruct>) -> Result<
    Seq<SpecField>,
    SpecRefErr,
>
    decreases fields,
{
    if fields.len() == 0 {
        Ok(Seq::empty())
    } else {
        match spec_resref_value(fields[0].value, snap) {
            Err(e) => Err(e),
            Ok(v2) => match spec_resref_fields(fields.skip(1), snap) {
                Err(e) => Err(e),
                Ok(rest) => Ok(seq![SpecField { name: fields[0].name, value: v2 }] + rest),
            },
        }
    }
}

/// The error that a reference-resolution outcome maps to.
pub open spec fn ref_err_matches(e: TycoError, se: SpecRefErr) -> bool {
    match se {
        SpecRefErr::UnknownStruct(n) => e matches TycoError::UnknownStruct(s) && s@ == n,
        SpecRefErr::MissingKey(_, _) => e is Reference,
    }
}

/// Walks one value for the reference-resolution pass.
#[verifier::loop_isolation(false)]
pub fn resref_value(v: &TycoValue, snap: &Vec<TycoStruct>) -> (r: Result<TycoValue, TycoError>)
    ensures
        r matches Ok(v2) ==> spec_resref_value(value_model(*v), structs_model(snap@)) == Ok::<
            SpecValue,
            SpecRefErr,
        >(value_model(v2)),
        r is Err <==> spec_resref_value(value_model(*v), structs_model(snap@)) is Err,
        r matches Err(e) ==> (spec_resref_value(value_model(*v), structs_model(snap@)) matches Err(
            se,
        ) && ref_err_matches(e, se)),
    decreases *v,
{
    match v {
        TycoValue::Reference(rf) => {
            match find_struct_idx(snap, rf.struct_name.as_str()) {
                None => Err(TycoError::UnknownStruct(rf.struct_name.clone())),
                Some(si) => {
                    proof {
                        lemma_structs_model_index(snap@);
                    }
                    match snap[si].find_by_primary_key(rf.primary_key.as_str()) {
                        None => {
                            let mut m = String::new();
                            m.append("Unknown ");
                            m.append(rf.struct_name.as_str());
                            m.append("(");
                            m.append(rf.primary_key.as_str());
                            m.append(")");
                            Err(TycoError::Reference(m))
                        },
                        Some(inst) => {
                            let copy = clone_instance(inst);
                            Ok(
                                TycoValue::Reference(
                                    crate::value::TycoReference {
                                        struct_name: rf.struct_name.clone(),
                                        primary_key: rf.primary_key.clone(),
                                        resolved: Some(Box::new(copy)),
                                    },
                                ),
                            )
                        },
                    }
                },
            }
        },
        TycoValue::Array(items) => {
            let ghost vm = crate::value::values_model(items@);
            let mut out: Vec<TycoValue> = Vec::new();
            let mut i: usize = 0;
            proof {
                crate::value::lemma_values_model_index(items@);
                assert(vm.skip(0) =~= vm);
                assert(crate::value::values_model(out@) =~= Seq::<SpecValue>::empty());
            }
            while i < items.len()
                invariant
                    i <= items@.len(),
                    vm.len() == items@.len(),
                    forall|j: int| 0 <= j < items@.len() ==> vm[j] == value_model(items@[j]),
                    res_values_prepend(
                        crate::value::values_model(out@),
                        spec_resref_values(vm.skip(i as int), structs_model(snap@)),
                    ) == spec_resref_values(vm, structs_model(snap@)),
                decreases items@.len() - i,
            {
                proof {
                    assert(vm.skip(i as int)[0] == vm[i as int]);
                    assert(vm.skip(i as int).skip(1) =~= vm.skip(i as int + 1));
                    assert(decreases_to!(*v => items@[i as int]));
                }
                let ghost preout = crate::value::values_model(out@);
                match resref_value(&items[i], snap) {
                    Err(e) => {
                        return Err(e);
                    },
                    Ok(v2) => {
                        let ghost oldout = out@;
                        out.push(v2);
                        proof {
                            crate::value::lemma_values_model_push(oldout, v2);
                            assert(crate::value::values_model(out@) =~= preout + seq![value_model(
                                v2,
                            )]);
                            assert(spec_resref_value(vm[i as int], structs_model(snap@)) == Ok::<
                                SpecValue,
                                SpecRefErr,
                            >(value_model(v2)));
                            match spec_resref_values(vm.skip(i as int + 1), structs_model(snap@)) {
                                Err(_) => {},
                                Ok(rest) => {
                                    assert(spec_resref_values(
                                        vm.skip(i as int),
                                        structs_model(snap@),
                                    ) == Ok::<Seq<SpecValue>, SpecRefErr>(seq![value_model(v2)]
                                        + rest));
                                    assert((preout + seq![value_model(v2)]) + rest =~= preout + (
                                    seq![value_model(v2)] + rest));
                                },
                            }
                        }
                    },
                }
                i = i + 1;
            }
            proof {
                assert(vm.skip(items@.len() as int).len() == 0);
                assert(crate::value::values_model(out@) + Seq::<SpecValue>::empty()
                    =~= crate::value::values_model(out@));
            }
            Ok(TycoValue::Array(out))
        },
        TycoValue::Instance(inst) => {
            let ghost fm = fields_model(inst.fields@);
            let mut out: Vec<TycoField> = Vec::new();
            let mut i: usize = 0;
            proof {
                lemma_fields_model_index(inst.fields@);
                assert(fm.skip(0) =~= fm);
                assert(fields_model(out@) =~= Seq::<SpecField>::empty());
            }
            while i < inst.fields.len()
                invariant
                    i <= inst.fields@.len(),
                    fm.len() == inst.fields@.len(),
                    forall|j: int| 0 <= j < inst.fields@.len() ==> fm[j] == field_model(inst.fields@[j]),
                    res_fields_prepend(
                        fields_model(out@),
                        spec_resref_fields(fm.skip(i as int), structs_model(snap@)),
                    ) == spec_resref_fields(fm, structs_model(snap@)),
                decreases inst.fields@.len() - i,
            {
                proof {
                    assert(fm.skip(i as int)[0] == fm[i as int]);
                    assert(fm.skip(i as int).skip(1) =~= fm.skip(i as int + 1));
                    assert(decreases_to!(*v => inst.fields@[i as int]));
                }
                let ghost preout = fields_model(out@);
                let fv = &inst.fields[i];
                match resref_value(&fv.value, snap) {
                    Err(e) => {
                        return Err(e);
                    },
                    Ok(v2) => {
                        let nf = TycoField { name: fv.name.clone(), value: v2 };
                        let ghost oldout = out@;
                        out.push(nf);
                        proof {
                            crate::value::lemma_fields_model_push(oldout, nf);
                            assert(fields_model(out@) =~= preout + seq![field_model(nf)]);
                            assert(spec_resref_value(fm[i as int].value, structs_model(snap@))
                                == Ok::<SpecValue, SpecRefErr>(value_model(v2)));
                            assert(field_model(nf) == (SpecField {
                                name: fm[i as int].name,
                                value: value_model(v2),
                            }));
                            match spec_resref_fields(fm.skip(i as int + 1), structs_model(snap@)) {
                                Err(_) => {},
                                Ok(rest) => {
                                    assert(spec_resref_fields(
                                        fm.skip(i as int),
                                        structs_model(snap@),
                                    ) == Ok::<Seq<SpecField>, SpecRefErr>(seq![field_model(nf)]
                                        + rest));
                                    assert((preout + seq![field_model(nf)]) + rest =~= preout + (
                                    seq![field_model(nf)] + rest));
                                },
                            }
                        }
                    },
                }
                i = i + 1;
            }
            proof {
                assert(fm.skip(inst.fields@.len() as int).len() == 0);
                assert(fields_model(out@) + Seq::<SpecField>::empty() =~= fields_model(out@));
            }
            Ok(TycoValue::Instance(TycoInstance { struct_name: inst.struct_name.clone(), fields: out }))
        },
        _ => Ok(crate::value::clone_value(v)),
    }
}

// ---------------------------------------------------------------------------
// Whole-pass folds
// ---------------------------------------------------------------------------
/// Bound on schema-application nesting during the coercion pass; structures
/// nested deeper (as cyclic schema defaults would be, without bound) are
/// rejected rather than recursed into forever.
pub const RESOLVE_FUEL: u64 = 1048576;

pub open spec fn resolve_fuel() -> nat {
    RESOLVE_FUEL as nat
}

pub open spec fn opt_insts_prepend(
    p: Seq<SpecInstance>,
    o: Option<Seq<SpecInstance>>,
) -> Option<Seq<SpecInstance>> {
    match o {
        None => None,
        Some(t) => Some(p + t),
    }
}

pub open spec fn opt_structs_prepend(
    p: Seq<SpecStruct>,
    o: Option<Seq<SpecStruct>>,
) -> Option<Seq<SpecStruct>> {
    match o {
        None => None,
        Some(t) => Some(p + t),
    }
}

pub open spec fn res_insts_prepend(
    p: Seq<SpecInstance>,
    o: Result<Seq<SpecInstance>, SpecRefErr>,
) -> Result<Seq<SpecInstance>, SpecRefErr> {
    match o {
        Err(e) => Err(e),
        Ok(t) => Ok(p + t),
    }
}

pub open spec fn res_structs_prepend(
    p: Seq<SpecStruct>,
    o: Result<Seq<SpecStruct>, SpecRefErr>,
) -> Result<Seq<SpecStruct>, SpecRefErr> {
    match o {
        Err(e) => Err(e),
        Ok(t) => Ok(p + t),
    }
}

/// The coercion pass over one struct's instances.
pub open spec fn spec_coerce_instances(
    insts: Seq<SpecInstance>,
    sch: SpecStruct,
    snap: Seq<SpecStruct>,
    fuel: nat,
) -> Option<Seq<SpecInstance>>
    decreases insts.len(),
{
    if insts.len() == 0 {
        Some(Seq::empty())
    } else {
        match spec_apply_schema(insts[0], sch, snap, fuel) {
            None => None,
            Some(i2) => match spec_coerce_instances(insts.skip(1), sch, snap, fuel) {
                None => None,
                Some(rest) => Some(seq![i2] + rest),
            },
        }
    }
}

/// The coercion pass over the struct list: each struct's instances get the
/// snapshot's schema of the same name (or the struct's own, failing that).
pub open spec fn spec_coerce_structs(
    structs: Seq<SpecStruct>,
    snap: Seq<SpecStruct>,
    fuel: nat,
) -> Option<Seq<SpecStruct>>
    decreases structs.len(),
{
    if structs.len() == 0 {
        Some(Seq::empty())
    } else {
        let s0 = structs[0];
        let sch = match spec_struct_lookup(snap, s0.name) {
            Some(x) => x,
            None => s0,
        };
        match spec_coerce_instances(s0.instances, sch, snap, fuel) {
            None => None,
            Some(insts2) => match spec_coerce_structs(structs.skip(1), snap, fuel) {
                None => None,
                Some(rest) => Some(seq![SpecStruct { instances: insts2, ..s0 }] + rest),
            },
        }
    }
}

/// The whole coercion pass.
pub open spec fn spec_coercion_pass(c: SpecContext, fuel: nat) -> Option<SpecContext> {
    match spec_resolve_fields(c.globals, c.structs, fuel) {
        None => None,
        Some(g2) => match spec_coerce_structs(c.structs, c.structs, fuel) {
            None => None,
            Some(s2) => Some(SpecContext { globals: g2, structs: s2 }),
        },
    }
}

/// Reference resolution over one instance: its values, walked in order.
pub open spec fn spec_resref_instance(m: SpecInstance, snap: Seq<SpecStruct>) -> Result<
    SpecInstance,
    SpecRefErr,
> {
    match spec_resref_fields(m.fields, snap) {
        Err(e) => Err(e),
        Ok(f2) => Ok(SpecInstance { struct_name: m.struct_name, fields: f2 }),
    }
}

pub open spec fn spec_resref_instances(insts: Seq<SpecInstance>, snap: Seq<SpecStruct>) -> Result<
    Seq<SpecInstance>,
    SpecRefErr,
>
    decreases insts.len(),
{
    if insts.len() == 0 {
        Ok(Seq::empty())
    } else {
        match spec_resref_instance(insts[0], snap) {
            Err(e) => Err(e),
            Ok(i2) => match spec_resref_instances(insts.skip(1), snap) {
                Err(e) => Err(e),
                Ok(rest) => Ok(seq![i2] + rest),
            },
        }
    }
}

pub open spec fn spec_resref_structs(structs: Seq<SpecStruct>, snap: Seq<SpecStruct>) -> Result<
    Seq<SpecStruct>,
    SpecRefErr,
>
    decreases structs.len(),
{
    if structs.len() == 0 {
        Ok(Seq::empty())
    } else {
        let s0 = structs[0];
        match spec_resref_instances(s0.instances, snap) {
            Err(e) => Err(e),
            Ok(insts2) => match spec_resref_structs(structs.skip(1), snap) {
                Err(e) => Err(e),
                Ok(rest) => Ok(seq![SpecStruct { instances: insts2, ..s0 }] + rest),
            },
        }
    }
}

/// The whole reference-resolution pass.
pub open spec fn spec_reference_pass(c: SpecContext) -> Result<SpecContext, SpecRefErr> {
    match spec_resref_fields(c.globals, c.structs) {
        Err(e) => Err(e),
        Ok(g2) => match spec_resref_structs(c.structs, c.structs) {
            Err(e) => Err(e),
            Ok(s2) => Ok(SpecContext { globals: g2, structs: s2 }),
        },
    }
}

/// What the indexing pass does to the struct list: each struct with a
/// primary key gets its index rebuilt from its instances; the others get an
/// empty index.
pub open spec fn spec_index_pass_structs(sm: Seq<SpecStruct>) -> Seq<SpecStruct> {
    Seq::new(
        sm.len(),
        |i: int|
            SpecStruct {
                index: match sm[i].primary_key_field {
                    None => Seq::empty(),
                    Some(pk) => spec_build_index(sm[i].instances, pk, Seq::empty()),
                },
                ..sm[i]
            },
    )
}

pub open spec fn spec_index_pass(c: SpecContext) -> SpecContext {
    SpecContext { globals: c.globals, structs: spec_index_pass_structs(c.structs) }
}

/// An owned copy of the whole document with the same model.
pub fn clone_context(c: &TycoContext) -> (r: TycoContext)
    ensures
        context_model(r) == context_model(*c),
{
    let mut globals: Vec<TycoField> = Vec::new();
    let mut i: usize = 0;
    while i < c.globals.len()
        invariant
            i <= c.globals@.len(),
            globals@.len() == i as int,
            forall|j: int|
                0 <= j < i as int ==> field_model(globals@[j]) == field_model(c.globals@[j]),
        decreases c.globals@.len() - i,
    {
        let g = &c.globals[i];
        globals.push(TycoField { name: g.name.clone(), value: clone_value(&g.value) });
        i = i + 1;
    }
    let mut structs: Vec<TycoStruct> = Vec::new();
    let mut k: usize = 0;
    while k < c.structs.len()
        invariant
            k <= c.structs@.len(),
            structs@.len() == k as int,
            forall|j: int|
                0 <= j < k as int ==> struct_model(structs@[j]) == struct_model(c.structs@[j]),
        decreases c.structs@.len() - k,
    {
        structs.push(clone_struct(&c.structs[k]));
        k = k + 1;
    }
    let r = TycoContext { globals, structs };
    proof {
        lemma_fields_model_index(r.globals@);
        lemma_fields_model_index(c.globals@);
        assert(fields_model(r.globals@) =~= fields_model(c.globals@));
        lemma_structs_model_index(r.structs@);
        lemma_structs_model_index(c.structs@);
        assert(structs_model(r.structs@) =~= structs_model(c.structs@));
    }
    r
}

/// Walks one instance for the reference-resolution pass.
#[verifier::loop_isolation(false)]
pub fn resref_instance(inst: &TycoInstance, snap: &Vec<TycoStruct>) -> (r: Result<
    TycoInstance,
    TycoError,
>)
    ensures
        r matches Ok(i2) ==> spec_resref_instance(instance_model(*inst), structs_model(snap@))
            == Ok::<SpecInstance, SpecRefErr>(instance_model(i2)),
        r is Err <==> spec_resref_instance(instance_model(*inst), structs_model(snap@)) is Err,
        r matches Err(e) ==> (spec_resref_instance(instance_model(*inst), structs_model(snap@))
            matches Err(se) && ref_err_matches(e, se)),
{
    let ghost fm = fields_model(inst.fields@);
    let mut out: Vec<TycoField> = Vec::new();
    let mut i: usize = 0;
    proof {
        lemma_fields_model_index(inst.fields@);
        assert(fm.skip(0) =~= fm);
        assert(fields_model(out@) =~= Seq::<SpecField>::empty());
    }
    while i < inst.fields.len()
        invariant
            i <= inst.fields@.len(),
            res_fields_prepend(
                fields_model(out@),
                spec_resref_fields(fm.skip(i as int), structs_model(snap@)),
            ) == spec_resref_fields(fm, structs_model(snap@)),
        decreases inst.fields@.len() - i,
    {
        proof {
            assert(fm.skip(i as int)[0] == fm[i as int]);
            assert(fm.skip(i as int).skip(1) =~= fm.skip(i as int + 1));
        }
        let ghost preout = fields_model(out@);
        let fv = &inst.fields[i];
        match resref_value(&fv.value, snap) {
            Err(e) => {
                return Err(e);
            },
            Ok(v2) => {
                let nf = TycoField { name: fv.name.clone(), value: v2 };
                let ghost oldout = out@;
                out.push(nf);
                proof {
                    crate::value::lemma_fields_model_push(oldout, nf);
                    assert(fields_model(out@) =~= preout + seq![field_model(nf)]);
                    assert(spec_resref_value(fm[i as int].value, structs_model(snap@)) == Ok::<
                        SpecValue,
                        SpecRefErr,
                    >(value_model(v2)));
                    assert(field_model(nf) == (SpecField {
                        name: fm[i as int].name,
                        value: value_model(v2),
                    }));
                    match spec_resref_fields(fm.skip(i as int + 1), structs_model(snap@)) {
                        Err(_) => {},
                        Ok(rest) => {
                            assert(spec_resref_fields(fm.skip(i as int), structs_model(snap@))
                                == Ok::<Seq<SpecField>, SpecRefErr>(seq![field_model(nf)] + rest));
                            assert((preout + seq![field_model(nf)]) + rest =~= preout + (seq![
                                field_model(nf),
                            ] + rest));
                        },
                    }
                }
            },
        }
        i = i + 1;
    }
    proof {
        assert(fm.skip(inst.fields@.len() as int).len() == 0);
        assert(fields_model(out@) + Seq::<SpecField>::empty() =~= fields_model(out@));
    }
    Ok(TycoInstance { struct_name: inst.struct_name.clone(), fields: out })
}

// ---------------------------------------------------------------------------
// The document context
// ---------------------------------------------------------------------------
/// Model of the whole document.
pub struct SpecContext {
    pub globals: Seq<SpecField>,
    pub structs: Seq<SpecStruct>,
}

/// The parsed document: ordered globals and ordered struct schemas, names
/// unique in each.
#[derive(Debug, PartialEq)]
pub struct TycoContext {
    pub globals: Vec<TycoField>,
    pub structs: Vec<TycoStruct>,
}

pub open spec fn structs_model(s: Seq<TycoStruct>) -> Seq<SpecStruct>
    decreases s,
{
    if s.len() == 0 {
        Seq::empty()
    } else {
        seq![struct_model(s[0])] + structs_model(s.skip(1))
    }
}

pub proof fn lemma_structs_model_index(s: Seq<TycoStruct>)
    ensures
        structs_model(s).len() == s.len(),
        forall|i: int| 0 <= i < s.len() ==> structs_model(s)[i] == struct_model(s[i]),
    decreases s,
{
    if s.len() > 0 {
        lemma_structs_model_index(s.skip(1));
    }
}

pub open spec fn context_model(c: TycoContext) -> SpecContext {
    SpecContext { globals: fields_model(c.globals@), structs: structs_model(c.structs@) }
}

/// Index of the first struct named `name`.
pub open spec fn struct_index_of(structs: Seq<SpecStruct>, name: Seq<char>) -> Option<int>
    decreases structs.len(),
{
    if structs.len() == 0 {
        None
    } else if structs[0].name == name {
        Some(0)
    } else {
        match struct_index_of(structs.skip(1), name) {
            None => None,
            Some(i) => Some(i + 1),
        }
    }
}

/// The struct named `name`, if declared.
pub open spec fn spec_struct_lookup(structs: Seq<SpecStruct>, name: Seq<char>) -> Option<
    SpecStruct,
> {
    match struct_index_of(structs, name) {
        None => None,
        Some(i) => Some(structs[i]),
    }
}

pub proof fn lemma_struct_index_first(structs: Seq<SpecStruct>, name: Seq<char>)
    ensures
        struct_index_of(structs, name) is None ==> forall|j: int|
            0 <= j < structs.len() ==> structs[j].name != name,
        struct_index_of(structs, name) matches Some(i) ==> 0 <= i < structs.len()
            && structs[i].name == name && forall|j: int| 0 <= j < i ==> structs[j].name != name,
    decreases structs.len(),
{
    if structs.len() > 0 && structs[0].name != name {
        lemma_struct_index_first(structs.skip(1), name);
        assert(forall|j: int| 1 <= j < structs.len() ==> structs[j] == structs.skip(1)[j - 1]);
    }
}

/// Executable first-match search over the struct list.
pub fn find_struct_idx(structs: &Vec<TycoStruct>, name: &str) -> (r: Option<usize>)
    ensures
        r matches Some(i) ==> struct_index_of(structs_model(structs@), name@) == Some(i as int)
            && i < structs@.len(),
        r is None ==> struct_index_of(structs_model(structs@), name@) is None,
{
    proof {
        lemma_structs_model_index(structs@);
        lemma_struct_index_first(structs_model(structs@), name@);
    }
    let mut i: usize = 0;
    while i < structs.len()
        invariant
            i <= structs@.len(),
            structs_model(structs@).len() == structs@.len(),
            forall|j: int|
                0 <= j < structs@.len() ==> structs_model(structs@)[j] == struct_model(
                    structs@[j],
                ),
            forall|j: int| 0 <= j < i as int ==> structs_model(structs@)[j].name != name@,
        decreases structs@.len() - i,
    {
        if utils::str_eq(structs[i].name.as_str(), name) {
            proof {
                lemma_struct_index_first(structs_model(structs@), name@);
                let oi = struct_index_of(structs_model(structs@), name@);
                assert(structs_model(structs@)[i as int].name == name@);
                assert(oi is Some);
                let k = oi.unwrap();
                if k < i as int {
                    assert(structs_model(structs@)[k].name != name@);
                }
                if k > i as int {
                    assert(structs_model(structs@)[i as int].name != name@);
                }
                assert(oi == Some(i as int));
            }
            return Some(i);
        }
        i = i + 1;
    }
    proof {
        lemma_struct_index_first(structs_model(structs@), name@);
    }
    None
}

impl TycoContext {
    /// An empty document.
    pub fn new() -> (r: TycoContext)
        ensures
            context_model(r) == (SpecContext { globals: Seq::empty(), structs: Seq::empty() }),
    {
        let r = TycoContext { globals: Vec::new(), structs: Vec::new() };
        proof {
            assert(fields_model(r.globals@) =~= Seq::<SpecField>::empty());
            assert(structs_model(r.structs@) =~= Seq::<SpecStruct>::empty());
        }
        r
    }

    /// Binds a global: replaces the value in place where the name is bound,
    /// appends otherwise.
    pub fn set_global(&mut self, name: String, value: TycoValue)
        ensures
            final(self).structs == old(self).structs,
            fields_model(final(self).globals@) == spec_set_field(
                fields_model(old(self).globals@),
                name@,
                value_model(value),
            ),
    {
        proof {
            lemma_fields_model_index(self.globals@);
        }
        match find_field_idx(&self.globals, name.as_str()) {
            Some(i) => {
                let f = TycoField { name, value };
                let ghost oldfields = self.globals@;
                let _ = self.globals.remove(i);
                self.globals.insert(i, f);
                proof {
                    assert(oldfields.remove(i as int).insert(i as int, f) =~= oldfields.update(
                        i as int,
                        f,
                    ));
                    lemma_fields_model_update(oldfields, i as int, f);
                    assert(field_model(f) == (SpecField { name: name@, value: value_model(value) }));
                }
            },
            None => {
                let f = TycoField { name, value };
                let ghost oldfields = self.globals@;
                self.globals.push(f);
                proof {
                    lemma_fields_model_push(oldfields, f);
                }
            },
        }
    }

    /// The globals, read-only.
    pub fn globals(&self) -> (r: &Vec<TycoField>)
        ensures
            r == &self.globals,
    {
        &self.globals
    }

    /// The globals, writable; the caller is trusted to keep names unique.
    pub fn globals_mut(&mut self) -> (r: &mut Vec<TycoField>)
        ensures
            *r == old(self).globals,
            final(self).globals == *final(r),
            final(self).structs == old(self).structs,
    {
        &mut self.globals
    }

    /// The value of the named global, if bound.
    pub fn get_global(&self, name: &str) -> (r: Option<&TycoValue>)
        ensures
            r matches Some(v) ==> spec_lookup(fields_model(self.globals@), name@) == Some(
                value_model(*v),
            ),
            r is None ==> spec_lookup(fields_model(self.globals@), name@) is None,
    {
        proof {
            lemma_fields_model_index(self.globals@);
        }
        match find_field_idx(&self.globals, name) {
            Some(i) => Some(&self.globals[i].value),
            None => None,
        }
    }

    /// Declares (or wholesale replaces, in place) a struct schema.
    pub fn add_struct(&mut self, tyco_struct: TycoStruct)
        ensures
            final(self).globals == old(self).globals,
            structs_model(final(self).structs@) == (match struct_index_of(
                structs_model(old(self).structs@),
                tyco_struct.name@,
            ) {
                None => structs_model(old(self).structs@).push(struct_model(tyco_struct)),
                Some(i) => structs_model(old(self).structs@).update(i, struct_model(tyco_struct)),
            }),
    {
        match find_struct_idx(&self.structs, tyco_struct.name.as_str()) {
            Some(i) => {
                let ghost olds = self.structs@;
                let _ = self.structs.remove(i);
                self.structs.insert(i, tyco_struct);
                proof {
                    assert(olds.remove(i as int).insert(i as int, tyco_struct) =~= olds.update(
                        i as int,
                        tyco_struct,
                    ));
                    lemma_structs_model_index(olds.update(i as int, tyco_struct));
                    lemma_structs_model_index(olds);
                    assert(structs_model(olds.update(i as int, tyco_struct)) =~= structs_model(
                        olds,
                    ).update(i as int, struct_model(tyco_struct)));
                }
            },
            None => {
                let ghost olds = self.structs@;
                self.structs.push(tyco_struct);
                proof {
                    lemma_structs_model_index(olds.push(tyco_struct));
                    lemma_structs_model_index(olds);
                    assert(structs_model(olds.push(tyco_struct)) =~= structs_model(olds).push(
                        struct_model(tyco_struct),
                    ));
                }
            },
        }
    }

    /// The struct list, read-only.
    pub fn structs(&self) -> (r: &Vec<TycoStruct>)
        ensures
            r == &self.structs,
    {
        &self.structs
    }

    /// The struct list, writable; the caller is trusted to keep names
    /// unique.
    pub fn structs_mut(&mut self) -> (r: &mut Vec<TycoStruct>)
        ensures
            *r == old(self).structs,
            final(self).structs == *final(r),
            final(self).globals == old(self).globals,
    {
        &mut self.structs
    }

    /// Runs the coercion pass: every global value and every stored instance
    /// is walked against a snapshot of the schemas taken before any
    /// mutation; positional placeholders are rebound, literals coerced,
    /// defaults applied and fields reordered. On an error the document is
    /// unchanged.
    #[verifier::loop_isolation(false)]
    #[verifier::rlimit(100)]
    pub fn resolve_inline_instances(&mut self) -> (r: Result<(), TycoError>)
        ensures
            r is Ok <==> spec_coercion_pass(context_model(*old(self)), resolve_fuel()) is Some,
            r is Ok ==> context_model(*final(self)) == spec_coercion_pass(
                context_model(*old(self)),
                resolve_fuel(),
            ).unwrap(),
            r is Err ==> *final(self) == *old(self),
            r matches Err(e) ==> e is Parse,
    {
        let ghost c0 = context_model(*self);
        let ghost sm = structs_model(self.structs@);
        let ghost gm = fields_model(self.globals@);
        let mut new_globals: Vec<TycoField> = Vec::new();
        let mut gi: usize = 0;
        proof {
            lemma_fields_model_index(self.globals@);
            lemma_structs_model_index(self.structs@);
            assert(gm.skip(0) =~= gm);
            assert(fields_model(new_globals@) =~= Seq::<SpecField>::empty());
        }
        while gi < self.globals.len()
            invariant
                gi <= self.globals@.len(),
                *self == *old(self),
                opt_fields_prepend(
                    fields_model(new_globals@),
                    spec_resolve_fields(gm.skip(gi as int), sm, resolve_fuel()),
                ) == spec_resolve_fields(gm, sm, resolve_fuel()),
            decreases self.globals@.len() - gi,
        {
            proof {
                assert(gm.skip(gi as int)[0] == gm[gi as int]);
                assert(gm.skip(gi as int).skip(1) =~= gm.skip(gi as int + 1));
            }
            let ghost preout = fields_model(new_globals@);
            let g = &self.globals[gi];
            match resolve_value_with(&g.value, &self.structs, RESOLVE_FUEL) {
                Err(e) => {
                    return Err(e);
                },
                Ok(v2) => {
                    let nf = TycoField { name: g.name.clone(), value: v2 };
                    let ghost oldout = new_globals@;
                    new_globals.push(nf);
                    proof {
                        crate::value::lemma_fields_model_push(oldout, nf);
                        assert(fields_model(new_globals@) =~= preout + seq![field_model(nf)]);
                        assert(field_model(nf) == (SpecField {
                            name: gm[gi as int].name,
                            value: value_model(v2),
                        }));
                        match spec_resolve_fields(gm.skip(gi as int + 1), sm, resolve_fuel()) {
                            None => {},
                            Some(rest) => {
                                assert(spec_resolve_fields(gm.skip(gi as int), sm, resolve_fuel())
                                    == Some(seq![field_model(nf)] + rest));
                                assert((preout + seq![field_model(nf)]) + rest =~= preout + (seq![
                                    field_model(nf),
                                ] + rest));
                            },
                        }
                    }
                },
            }
            gi = gi + 1;
        }
        proof {
            assert(gm.skip(self.globals@.len() as int).len() == 0);
            assert(fields_model(new_globals@) + Seq::<SpecField>::empty() =~= fields_model(
                new_globals@,
            ));
        }
        let mut new_structs: Vec<TycoStruct> = Vec::new();
        let mut si: usize = 0;
        proof {
            assert(sm.skip(0) =~= sm);
            assert(structs_model(new_structs@) =~= Seq::<SpecStruct>::empty());
        }
        while si < self.structs.len()
            invariant
                si <= self.structs@.len(),
                *self == *old(self),
                opt_structs_prepend(
                    structs_model(new_structs@),
                    spec_coerce_structs(sm.skip(si as int), sm, resolve_fuel()),
                ) == spec_coerce_structs(sm, sm, resolve_fuel()),
            decreases self.structs@.len() - si,
        {
            proof {
                assert(sm.skip(si as int)[0] == sm[si as int]);
                assert(sm.skip(si as int).skip(1) =~= sm.skip(si as int + 1));
            }
            let ghost prestructs = structs_model(new_structs@);
            let s = &self.structs[si];
            let schref: &TycoStruct = match find_struct_idx(&self.structs, s.name.as_str()) {
                Some(k) => &self.structs[k],
                None => s,
            };
            let ghost schm = struct_model(*schref);
            proof {
                assert(schm == (match spec_struct_lookup(sm, sm[si as int].name) {
                    Some(x) => x,
                    None => sm[si as int],
                }));
            }
            let ghost im = instances_model(s.instances@);
            let mut new_insts: Vec<TycoInstance> = Vec::new();
            let mut j: usize = 0;
            proof {
                lemma_instances_model_index(s.instances@);
                assert(im.skip(0) =~= im);
                assert(instances_model(new_insts@) =~= Seq::<SpecInstance>::empty());
            }
            while j < s.instances.len()
                invariant
                    j <= s.instances@.len(),
                    *self == *old(self),
                    si < self.structs@.len(),
                    s == &self.structs@[si as int],
                    im == instances_model(s.instances@),
                    im.len() == s.instances@.len(),
                    forall|q: int|
                        0 <= q < s.instances@.len() ==> im[q] == instance_model(s.instances@[q]),
                    schm == struct_model(*schref),
                    opt_insts_prepend(
                        instances_model(new_insts@),
                        spec_coerce_instances(im.skip(j as int), schm, sm, resolve_fuel()),
                    ) == spec_coerce_instances(im, schm, sm, resolve_fuel()),
                decreases s.instances@.len() - j,
            {
                proof {
                    assert(im.skip(j as int)[0] == im[j as int]);
                    assert(im.skip(j as int).skip(1) =~= im.skip(j as int + 1));
                }
                let ghost preinsts = instances_model(new_insts@);
                match apply_schema_with(&s.instances[j], schref, &self.structs, RESOLVE_FUEL) {
                    Err(e) => {
                        return Err(e);
                    },
                    Ok(i2) => {
                        let ghost oldinsts = new_insts@;
                        new_insts.push(i2);
                        proof {
                            lemma_instances_model_index(oldinsts.push(i2));
                            lemma_instances_model_index(oldinsts);
                            assert(instances_model(oldinsts.push(i2)) =~= instances_model(
                                oldinsts,
                            ).push(instance_model(i2)));
                            assert(instances_model(new_insts@) =~= preinsts + seq![instance_model(
                                i2,
                            )]);
                            match spec_coerce_instances(
                                im.skip(j as int + 1),
                                schm,
                                sm,
                                resolve_fuel(),
                            ) {
                                None => {},
                                Some(rest) => {
                                    assert(spec_coerce_instances(
                                        im.skip(j as int),
                                        schm,
                                        sm,
                                        resolve_fuel(),
                                    ) == Some(seq![instance_model(i2)] + rest));
                                    assert((preinsts + seq![instance_model(i2)]) + rest
                                        =~= preinsts + (seq![instance_model(i2)] + rest));
                                },
                            }
                        }
                    },
                }
                j = j + 1;
            }
            proof {
                assert(im.skip(s.instances@.len() as int).len() == 0);
                assert(instances_model(new_insts@) + Seq::<SpecInstance>::empty()
                    =~= instances_model(new_insts@));
            }
            let mut ns = clone_struct(s);
            ns.instances = new_insts;
            proof {
                assert(struct_model(ns) == (SpecStruct {
                    instances: instances_model(ns.instances@),
                    ..sm[si as int]
                }));
            }
            let ghost oldns = new_structs@;
            new_structs.push(ns);
            proof {
                lemma_structs_model_index(oldns.push(ns));
                lemma_structs_model_index(oldns);
                assert(structs_model(oldns.push(ns)) =~= structs_model(oldns).push(
                    struct_model(ns),
                ));
                assert(structs_model(new_structs@) =~= prestructs + seq![struct_model(ns)]);
                match spec_coerce_structs(sm.skip(si as int + 1), sm, resolve_fuel()) {
                    None => {},
                    Some(rest) => {
                        assert(spec_coerce_structs(sm.skip(si as int), sm, resolve_fuel()) == Some(
                            seq![struct_model(ns)] + rest,
                        ));
                        assert((prestructs + seq![struct_model(ns)]) + rest =~= prestructs + (seq![
                            struct_model(ns),
                        ] + rest));
                    },
                }
            }
            si = si + 1;
        }
        proof {
            assert(sm.skip(self.structs@.len() as int).len() == 0);
            assert(structs_model(new_structs@) + Seq::<SpecStruct>::empty() =~= structs_model(
                new_structs@,
            ));
        }
        self.globals = new_globals;
        self.structs = new_structs;
        Ok(())
    }

    /// Runs the reference-resolution pass: every unresolved reference in
    /// globals and instances is looked up against a snapshot of the structs
    /// and their indices; a reference to an undeclared struct or to an
    /// unindexed key aborts with the matching error kind, leaving the
    /// document unchanged.
    #[verifier::loop_isolation(false)]
    #[verifier::rlimit(100)]
    pub fn resolve_references(&mut self) -> (r: Result<(), TycoError>)
        ensures
            r is Ok <==> spec_reference_pass(context_model(*old(self))) is Ok,
            r is Ok ==> (spec_reference_pass(context_model(*old(self))) matches Ok(c2)
                && context_model(*final(self)) == c2),
            r is Err ==> *final(self) == *old(self),
            r matches Err(e) ==> (spec_reference_pass(context_model(*old(self))) matches Err(se)
                && ref_err_matches(e, se)),
    {
        let ghost sm = structs_model(self.structs@);
        let ghost gm = fields_model(self.globals@);
        let mut new_globals: Vec<TycoField> = Vec::new();
        let mut gi: usize = 0;
        proof {
            lemma_fields_model_index(self.globals@);
            lemma_structs_model_index(self.structs@);
            assert(gm.skip(0) =~= gm);
            assert(fields_model(new_globals@) =~= Seq::<SpecField>::empty());
        }
        while gi < self.globals.len()
            invariant
                gi <= self.globals@.len(),
                *self == *old(self),
                res_fields_prepend(
                    fields_model(new_globals@),
                    spec_resref_fields(gm.skip(gi as int), sm),
                ) == spec_resref_fields(gm, sm),
            decreases self.globals@.len() - gi,
        {
            proof {
                assert(gm.skip(gi as int)[0] == gm[gi as int]);
                assert(gm.skip(gi as int).skip(1) =~= gm.skip(gi as int + 1));
            }
            let ghost preout = fields_model(new_globals@);
            let g = &self.globals[gi];
            match resref_value(&g.value, &self.structs) {
                Err(e) => {
                    return Err(e);
                },
                Ok(v2) => {
                    let nf = TycoField { name: g.name.clone(), value: v2 };
                    let ghost oldout = new_globals@;
                    new_globals.push(nf);
                    proof {
                        crate::value::lemma_fields_model_push(oldout, nf);
                        assert(fields_model(new_globals@) =~= preout + seq![field_model(nf)]);
                        assert(field_model(nf) == (SpecField {
                            name: gm[gi as int].name,
                            value: value_model(v2),
                        }));
                        match spec_resref_fields(gm.skip(gi as int + 1), sm) {
                            Err(_) => {},
                            Ok(rest) => {
                                assert(spec_resref_fields(gm.skip(gi as int), sm) == Ok::<
                                    Seq<SpecField>,
                                    SpecRefErr,
                                >(seq![field_model(nf)] + rest));
                                assert((preout + seq![field_model(nf)]) + rest =~= preout + (seq![
                                    field_model(nf),
                                ] + rest));
                            },
                        }
                    }
                },
            }
            gi = gi + 1;
        }
        proof {
            assert(gm.skip(self.globals@.len() as int).len() == 0);
            assert(fields_model(new_globals@) + Seq::<SpecField>::empty() =~= fields_model(
                new_globals@,
            ));
        }
        let mut new_structs: Vec<TycoStruct> = Vec::new();
        let mut si: usize = 0;
        proof {
            assert(sm.skip(0) =~= sm);
            assert(structs_model(new_structs@) =~= Seq::<SpecStruct>::empty());
        }
        while si < self.structs.len()
            invariant
                si <= self.structs@.len(),
                *self == *old(self),
                res_structs_prepend(
                    structs_model(new_structs@),
                    spec_resref_structs(sm.skip(si as int), sm),
                ) == spec_resref_structs(sm, sm),
            decreases self.structs@.len() - si,
        {
            proof {
                assert(sm.skip(si as int)[0] == sm[si as int]);
                assert(sm.skip(si as int).skip(1) =~= sm.skip(si as int + 1));
            }
            let ghost prestructs = structs_model(new_structs@);
            let s = &self.structs[si];
            let ghost im = instances_model(s.instances@);
            let mut new_insts: Vec<TycoInstance> = Vec::new();
            let mut j: usize = 0;
            proof {
                lemma_instances_model_index(s.instances@);
                assert(im.skip(0) =~= im);
                assert(instances_model(new_insts@) =~= Seq::<SpecInstance>::empty());
            }
            while j < s.instances.len()
                invariant
                    j <= s.instances@.len(),
                    *self == *old(self),
                    si < self.structs@.len(),
                    s == &self.structs@[si as int],
                    im == instances_model(s.instances@),
                    im.len() == s.instances@.len(),
                    forall|q: int|
                        0 <= q < s.instances@.len() ==> im[q] == instance_model(s.instances@[q]),
                    res_insts_prepend(
                        instances_model(new_insts@),
                        spec_resref_instances(im.skip(j as int), sm),
                    ) == spec_resref_instances(im, sm),
                decreases s.instances@.len() - j,
            {
                proof {
                    assert(im.skip(j as int)[0] == im[j as int]);
                    assert(im.skip(j as int).skip(1) =~= im.skip(j as int + 1));
                }
                let ghost preinsts = instances_model(new_insts@);
                match resref_instance(&s.instances[j], &self.structs) {
                    Err(e) => {
                        return Err(e);
                    },
                    Ok(i2) => {
                        let ghost oldinsts = new_insts@;
                        new_insts.push(i2);
                        proof {
                            lemma_instances_model_index(oldinsts.push(i2));
                            lemma_instances_model_index(oldinsts);
                            assert(instances_model(oldinsts.push(i2)) =~= instances_model(
                                oldinsts,
                            ).push(instance_model(i2)));
                            assert(instances_model(new_insts@) =~= preinsts + seq![instance_model(
                                i2,
                            )]);
                            assert(spec_resref_instance(im[j as int], sm) == Ok::<
                                SpecInstance,
                                SpecRefErr,
                            >(instance_model(i2)));
                            match spec_resref_instances(im.skip(j as int + 1), sm) {
                                Err(_) => {},
                                Ok(rest) => {
                                    assert(spec_resref_instances(im.skip(j as int), sm) == Ok::<
                                        Seq<SpecInstance>,
                                        SpecRefErr,
                                    >(seq![instance_model(i2)] + rest));
                                    assert((preinsts + seq![instance_model(i2)]) + rest
                                        =~= preinsts + (seq![instance_model(i2)] + rest));
                                },
                            }
                        }
                    },
                }
                j = j + 1;
            }
            proof {
                assert(im.skip(s.instances@.len() as int).len() == 0);
                assert(instances_model(new_insts@) + Seq::<SpecInstance>::empty()
                    =~= instances_model(new_insts@));
                assert(spec_resref_instances(im, sm) == Ok::<Seq<SpecInstance>, SpecRefErr>(
                    instances_model(new_insts@),
                ));
            }
            let mut ns = clone_struct(s);
            ns.instances = new_insts;
            proof {
                assert(struct_model(ns) == (SpecStruct {
                    instances: instances_model(ns.instances@),
                    ..sm[si as int]
                }));
            }
            let ghost oldns = new_structs@;
            new_structs.push(ns);
            proof {
                lemma_structs_model_index(oldns.push(ns));
                lemma_structs_model_index(oldns);
                assert(structs_model(oldns.push(ns)) =~= structs_model(oldns).push(
                    struct_model(ns),
                ));
                assert(structs_model(new_structs@) =~= prestructs + seq![struct_model(ns)]);
                match spec_resref_structs(sm.skip(si as int + 1), sm) {
                    Err(_) => {},
                    Ok(rest) => {
                        assert(spec_resref_structs(sm.skip(si as int), sm) == Ok::<
                            Seq<SpecStruct>,
                            SpecRefErr,
                        >(seq![struct_model(ns)] + rest));
                        assert((prestructs + seq![struct_model(ns)]) + rest =~= prestructs + (seq![
                            struct_model(ns),
                        ] + rest));
                    },
                }
            }
            si = si + 1;
        }
        proof {
            assert(sm.skip(self.structs@.len() as int).len() == 0);
            assert(structs_model(new_structs@) + Seq::<SpecStruct>::empty() =~= structs_model(
                new_structs@,
            ));
        }
        self.globals = new_globals;
        self.structs = new_structs;
        Ok(())
    }

    /// Runs the rendering pass: every template-eligible string in globals
    /// and instances has its placeholders substituted, reading a snapshot
    /// taken before the pass and updated value by value as rendering
    /// proceeds.
    #[verifier::loop_isolation(false)]
    #[verifier::rlimit(100)]
    pub fn render_templates(&mut self)
        ensures
            context_model(*final(self)) == crate::render::spec_render_pass(
                context_model(*old(self)),
            ),
    {
        let ghost c0 = context_model(*self);
        let ghost gm = fields_model(self.globals@);
        let ghost sm = structs_model(self.structs@);
        let mut snap = clone_context(self);
        let mut new_globals: Vec<TycoField> = Vec::new();
        let mut gi: usize = 0;
        proof {
            lemma_fields_model_index(self.globals@);
            lemma_structs_model_index(self.structs@);
            assert(gm.skip(0) =~= gm);
            assert(fields_model(new_globals@) =~= Seq::<SpecField>::empty());
        }
        while gi < self.globals.len()
            invariant
                gi <= self.globals@.len(),
                *self == *old(self),
                crate::render::spec_render_globals(gm, c0).0 == fields_model(new_globals@)
                    + crate::render::spec_render_globals(
                    gm.skip(gi as int),
                    context_model(snap),
                ).0,
                crate::render::spec_render_globals(gm, c0).1
                    == crate::render::spec_render_globals(
                    gm.skip(gi as int),
                    context_model(snap),
                ).1,
            decreases self.globals@.len() - gi,
        {
            proof {
                assert(gm.skip(gi as int)[0] == gm[gi as int]);
                assert(gm.skip(gi as int).skip(1) =~= gm.skip(gi as int + 1));
            }
            let ghost presnap = context_model(snap);
            let ghost preout = fields_model(new_globals@);
            let g = &self.globals[gi];
            let v2 = crate::render::render_value_exec(&g.value, &snap, None);
            snap.set_global(g.name.clone(), crate::value::clone_value(&v2));
            let nf = TycoField { name: g.name.clone(), value: v2 };
            let ghost oldout = new_globals@;
            new_globals.push(nf);
            proof {
                crate::value::lemma_fields_model_push(oldout, nf);
                assert(fields_model(new_globals@) =~= preout + seq![field_model(nf)]);
                assert(field_model(nf) == (SpecField {
                    name: gm[gi as int].name,
                    value: value_model(v2),
                }));
                assert(context_model(snap) == (SpecContext {
                    globals: spec_set_field(presnap.globals, gm[gi as int].name, value_model(v2)),
                    structs: presnap.structs,
                }));
                assert((preout + seq![field_model(nf)]) + crate::render::spec_render_globals(
                    gm.skip(gi as int + 1),
                    context_model(snap),
                ).0 =~= preout + (seq![field_model(nf)] + crate::render::spec_render_globals(
                    gm.skip(gi as int + 1),
                    context_model(snap),
                ).0));
            }
            gi = gi + 1;
        }
        proof {
            assert(gm.skip(self.globals@.len() as int).len() == 0);
            assert(fields_model(new_globals@) + Seq::<SpecField>::empty() =~= fields_model(
                new_globals@,
            ));
            assert(fields_model(new_globals@) == crate::render::spec_render_globals(gm, c0).0);
        }
        let ghost snap1 = context_model(snap);
        let mut new_structs: Vec<TycoStruct> = Vec::new();
        let mut si: usize = 0;
        proof {
            assert(sm.skip(0) =~= sm);
            assert(structs_model(new_structs@) =~= Seq::<SpecStruct>::empty());
        }
        while si < self.structs.len()
            invariant
                si <= self.structs@.len(),
                *self == *old(self),
                crate::render::spec_render_structs_fold(sm, snap1).0 == structs_model(
                    new_structs@,
                ) + crate::render::spec_render_structs_fold(
                    sm.skip(si as int),
                    context_model(snap),
                ).0,
                crate::render::spec_render_structs_fold(sm, snap1).1
                    == crate::render::spec_render_structs_fold(
                    sm.skip(si as int),
                    context_model(snap),
                ).1,
            decreases self.structs@.len() - si,
        {
            proof {
                assert(sm.skip(si as int)[0] == sm[si as int]);
                assert(sm.skip(si as int).skip(1) =~= sm.skip(si as int + 1));
            }
            let ghost prestructs = structs_model(new_structs@);
            let s = &self.structs[si];
            let ghost im = instances_model(s.instances@);
            let mut new_insts: Vec<TycoInstance> = Vec::new();
            let mut j: usize = 0;
            proof {
                lemma_instances_model_index(s.instances@);
                assert(im.skip(0) =~= im);
                assert(instances_model(new_insts@) =~= Seq::<SpecInstance>::empty());
            }
            let ghost snap_in = context_model(snap);
            while j < s.instances.len()
                invariant
                    j <= s.instances@.len(),
                    *self == *old(self),
                    si < self.structs@.len(),
                    s == &self.structs@[si as int],
                    im == instances_model(s.instances@),
                    im.len() == s.instances@.len(),
                    forall|q: int|
                        0 <= q < s.instances@.len() ==> im[q] == instance_model(s.instances@[q]),
                    crate::render::spec_render_insts(im, sm[si as int].name, 0, snap_in).0
                        == instances_model(new_insts@) + crate::render::spec_render_insts(
                        im.skip(j as int),
                        sm[si as int].name,
                        j as nat,
                        context_model(snap),
                    ).0,
                    crate::render::spec_render_insts(im, sm[si as int].name, 0, snap_in).1
                        == crate::render::spec_render_insts(
                        im.skip(j as int),
                        sm[si as int].name,
                        j as nat,
                        context_model(snap),
                    ).1,
                decreases s.instances@.len() - j,
            {
                proof {
                    assert(im.skip(j as int)[0] == im[j as int]);
                    assert(im.skip(j as int).skip(1) =~= im.skip(j as int + 1));
                }
                let ghost presnap = context_model(snap);
                let ghost preinsts = instances_model(new_insts@);
                let i2 = crate::render::render_instance_exec(&s.instances[j], &snap);
                match find_struct_idx(&snap.structs, s.name.as_str()) {
                    None => {
                        proof {
                            assert(context_model(snap) == crate::render::spec_snap_update_instance(
                                presnap,
                                sm[si as int].name,
                                j as nat,
                                instance_model(i2),
                            ));
                        }
                    },
                    Some(k) => {
                        let ghost oldsnapstructs = snap.structs@;
                        let mut st = snap.structs.remove(k);
                        let ghost oldinstances = st.instances@;
                        if j < st.instances.len() {
                            let _ = st.instances.remove(j);
                            st.instances.insert(j, clone_instance(&i2));
                            proof {
                                assert(oldinstances.remove(j as int).insert(
                                    j as int,
                                    st.instances@[j as int],
                                ) =~= oldinstances.update(j as int, st.instances@[j as int]));
                                lemma_instances_model_index(
                                    oldinstances.update(j as int, st.instances@[j as int]),
                                );
                                lemma_instances_model_index(oldinstances);
                                assert(instances_model(st.instances@) =~= instances_model(
                                    oldinstances,
                                ).update(j as int, instance_model(i2)));
                            }
                        } else {
                            st.instances.push(clone_instance(&i2));
                            proof {
                                lemma_instances_model_index(st.instances@);
                                lemma_instances_model_index(oldinstances);
                                assert(instances_model(st.instances@) =~= instances_model(
                                    oldinstances,
                                ).push(instance_model(i2)));
                            }
                        }
                        let ghost st2 = st;
                        snap.structs.insert(k, st);
                        proof {
                            assert(oldsnapstructs.remove(k as int).insert(k as int, st2)
                                =~= oldsnapstructs.update(k as int, st2));
                            lemma_structs_model_index(oldsnapstructs.update(k as int, st2));
                            lemma_structs_model_index(oldsnapstructs);
                            assert(structs_model(snap.structs@) =~= structs_model(
                                oldsnapstructs,
                            ).update(k as int, struct_model(st2)));
                            assert(context_model(snap) == crate::render::spec_snap_update_instance(
                                presnap,
                                sm[si as int].name,
                                j as nat,
                                instance_model(i2),
                            ));
                        }
                    },
                }
                let ghost oldinsts = new_insts@;
                new_insts.push(i2);
                proof {
                    lemma_instances_model_index(oldinsts.push(i2));
                    lemma_instances_model_index(oldinsts);
                    assert(instances_model(oldinsts.push(i2)) =~= instances_model(oldinsts).push(
                        instance_model(i2),
                    ));
                    assert(instances_model(new_insts@) =~= preinsts + seq![instance_model(i2)]);
                    assert((preinsts + seq![instance_model(i2)])
                        + crate::render::spec_render_insts(
                        im.skip(j as int + 1),
                        sm[si as int].name,
                        j as nat + 1,
                        context_model(snap),
                    ).0 =~= preinsts + (seq![instance_model(i2)]
                        + crate::render::spec_render_insts(
                        im.skip(j as int + 1),
                        sm[si as int].name,
                        j as nat + 1,
                        context_model(snap),
                    ).0));
                }
                j = j + 1;
            }
            proof {
                assert(im.skip(s.instances@.len() as int).len() == 0);
                assert(instances_model(new_insts@) + Seq::<SpecInstance>::empty()
                    =~= instances_model(new_insts@));
                assert(crate::render::spec_render_insts(im, sm[si as int].name, 0, snap_in).0
                    == instances_model(new_insts@));
            }
            let mut ns = clone_struct(s);
            ns.instances = new_insts;
            proof {
                assert(struct_model(ns) == (SpecStruct {
                    instances: instances_model(ns.instances@),
                    ..sm[si as int]
                }));
            }
            let ghost oldns = new_structs@;
            new_structs.push(ns);
            proof {
                lemma_structs_model_index(oldns.push(ns));
                lemma_structs_model_index(oldns);
                assert(structs_model(oldns.push(ns)) =~= structs_model(oldns).push(
                    struct_model(ns),
                ));
                assert(structs_model(new_structs@) =~= prestructs + seq![struct_model(ns)]);
                assert((prestructs + seq![struct_model(ns)])
                    + crate::render::spec_render_structs_fold(
                    sm.skip(si as int + 1),
                    context_model(snap),
                ).0 =~= prestructs + (seq![struct_model(ns)]
                    + crate::render::spec_render_structs_fold(
                    sm.skip(si as int + 1),
                    context_model(snap),
                ).0));
            }
            si = si + 1;
        }
        proof {
            assert(sm.skip(self.structs@.len() as int).len() == 0);
            assert(structs_model(new_structs@) + Seq::<SpecStruct>::empty() =~= structs_model(
                new_structs@,
            ));
        }
        self.globals = new_globals;
        self.structs = new_structs;
    }

    /// Rebuilds every struct's primary-key index.
    #[verifier::loop_isolation(false)]
    pub fn build_indices(&mut self)
        ensures
            context_model(*final(self)) == spec_index_pass(context_model(*old(self))),
    {
        let ghost sm = structs_model(self.structs@);
        let mut new_structs: Vec<TycoStruct> = Vec::new();
        let mut si: usize = 0;
        proof {
            lemma_structs_model_index(self.structs@);
            assert(structs_model(new_structs@) =~= Seq::<SpecStruct>::empty());
        }
        while si < self.structs.len()
            invariant
                si <= self.structs@.len(),
                *self == *old(self),
                structs_model(new_structs@) == spec_index_pass_structs(sm).take(si as int),
            decreases self.structs@.len() - si,
        {
            let ghost prestructs = structs_model(new_structs@);
            let mut ns = clone_struct(&self.structs[si]);
            ns.build_primary_index();
            proof {
                assert(struct_model(ns) == spec_index_pass_structs(sm)[si as int]);
            }
            let ghost oldns = new_structs@;
            new_structs.push(ns);
            proof {
                lemma_structs_model_index(oldns.push(ns));
                lemma_structs_model_index(oldns);
                assert(structs_model(oldns.push(ns)) =~= structs_model(oldns).push(
                    struct_model(ns),
                ));
                assert(structs_model(new_structs@) =~= spec_index_pass_structs(sm).take(
                    si as int + 1,
                ));
            }
            si = si + 1;
        }
        proof {
            assert(spec_index_pass_structs(sm).take(self.structs@.len() as int)
                =~= spec_index_pass_structs(sm));
        }
        self.structs = new_structs;
    }

    /// Runs the whole resolution pipeline, in its fixed order: coercion,
    /// indexing, reference resolution, template rendering.
    pub fn render(&mut self) -> (r: Result<(), TycoError>)
        ensures
            spec_coercion_pass(context_model(*old(self)), resolve_fuel()) is None ==> (r is Err
                && (r matches Err(e) ==> e is Parse)),
            spec_coercion_pass(context_model(*old(self)), resolve_fuel()) matches Some(c1) ==> (
            match spec_reference_pass(spec_index_pass(c1)) {
                Err(se) => r matches Err(e) && ref_err_matches(e, se),
                Ok(c3) => r is Ok && context_model(*final(self))
                    == crate::render::spec_render_pass(c3),
            }),
    {
        match self.resolve_inline_instances() {
            Err(e) => {
                return Err(e);
            },
            Ok(_) => {},
        }
        self.build_indices();
        match self.resolve_references() {
            Err(e) => {
                return Err(e);
            },
            Ok(_) => {},
        }
        self.render_templates();
        Ok(())
    }

    /// Appends a declared field to the named struct; `UnknownStruct` when
    /// no struct of that name is declared.
    pub fn add_field_to(&mut self, struct_name: &str, field: FieldSchema) -> (r: Result<
        (),
        TycoError,
    >)
        ensures
            final(self).globals == old(self).globals,
            r is Ok <==> struct_index_of(structs_model(old(self).structs@), struct_name@) is Some,
            r is Err ==> *final(self) == *old(self),
            r matches Err(e) ==> e is UnknownStruct,
            struct_index_of(structs_model(old(self).structs@), struct_name@) matches Some(i)
                ==> structs_model(final(self).structs@) == structs_model(
                old(self).structs@,
            ).update(
                i,
                SpecStruct {
                    fields: structs_model(old(self).structs@)[i].fields.push(schema_model(field)),
                    primary_key_field: if field.is_primary_key {
                        Some(field.name@)
                    } else {
                        structs_model(old(self).structs@)[i].primary_key_field
                    },
                    ..structs_model(old(self).structs@)[i]
                },
            ),
    {
        match find_struct_idx(&self.structs, struct_name) {
            None => Err(TycoError::UnknownStruct(String::from_str(struct_name))),
            Some(i) => {
                let ghost olds = self.structs@;
                let mut st = self.structs.remove(i);
                st.add_field(field);
                let ghost st2 = st;
                self.structs.insert(i, st);
                proof {
                    assert(olds.remove(i as int).insert(i as int, st2) =~= olds.update(
                        i as int,
                        st2,
                    ));
                    lemma_structs_model_index(olds.update(i as int, st2));
                    lemma_structs_model_index(olds);
                    assert(structs_model(olds.update(i as int, st2)) =~= structs_model(
                        olds,
                    ).update(i as int, struct_model(st2)));
                }
                Ok(())
            },
        }
    }

    /// Appends a parsed instance to the named struct; `UnknownStruct` when
    /// no struct of that name is declared.
    pub fn add_instance_to(&mut self, struct_name: &str, instance: TycoInstance) -> (r: Result<
        (),
        TycoError,
    >)
        ensures
            final(self).globals == old(self).globals,
            r is Ok <==> struct_index_of(structs_model(old(self).structs@), struct_name@) is Some,
            r is Err ==> *final(self) == *old(self),
            r matches Err(e) ==> e is UnknownStruct,
            struct_index_of(structs_model(old(self).structs@), struct_name@) matches Some(i)
                ==> structs_model(final(self).structs@) == structs_model(
                old(self).structs@,
            ).update(
                i,
                SpecStruct {
                    instances: structs_model(old(self).structs@)[i].instances.push(
                        instance_model(instance),
                    ),
                    ..structs_model(old(self).structs@)[i]
                },
            ),
    {
        match find_struct_idx(&self.structs, struct_name) {
            None => Err(TycoError::UnknownStruct(String::from_str(struct_name))),
            Some(i) => {
                let ghost olds = self.structs@;
                let mut st = self.structs.remove(i);
                st.add_instance(instance);
                let ghost st2 = st;
                self.structs.insert(i, st);
                proof {
                    assert(olds.remove(i as int).insert(i as int, st2) =~= olds.update(
                        i as int,
                        st2,
                    ));
                    lemma_structs_model_index(olds.update(i as int, st2));
                    lemma_structs_model_index(olds);
                    assert(structs_model(olds.update(i as int, st2)) =~= structs_model(
                        olds,
                    ).update(i as int, struct_model(st2)));
                }
                Ok(())
            },
        }
    }

    /// Updates a declared field's default value in the named struct.
    /// `UnknownStruct` when the struct is not declared; a parse error when
    /// the field is not declared.
    pub fn set_default_in(
        &mut self,
        struct_name: &str,
        field_name: &str,
        value: Option<TycoValue>,
    ) -> (r: Result<(), TycoError>)
        ensures
            final(self).globals == old(self).globals,
            r matches Err(e) ==> (e is UnknownStruct || e is Parse),
            r is Err ==> context_model(*final(self)) == context_model(*old(self)),
            r is Ok <==> (struct_index_of(structs_model(old(self).structs@), struct_name@)
                matches Some(i) && schema_index_of(
                structs_model(old(self).structs@)[i].fields,
                field_name@,
            ) is Some),
            struct_index_of(structs_model(old(self).structs@), struct_name@) matches Some(i)
                ==> schema_index_of(structs_model(old(self).structs@)[i].fields, field_name@)
                matches Some(fi) ==> structs_model(final(self).structs@) == structs_model(
                old(self).structs@,
            ).update(
                i,
                SpecStruct {
                    fields: structs_model(old(self).structs@)[i].fields.update(
                        fi,
                        SpecFieldSchema {
                            default_value: match value {
                                None => None,
                                Some(v) => Some(value_model(v)),
                            },
                            ..structs_model(old(self).structs@)[i].fields[fi]
                        },
                    ),
                    ..structs_model(old(self).structs@)[i]
                },
            ),
    {
        match find_struct_idx(&self.structs, struct_name) {
            None => Err(TycoError::UnknownStruct(String::from_str(struct_name))),
            Some(i) => {
                let ghost olds = self.structs@;
                let mut st = self.structs.remove(i);
                let res = st.set_default(field_name, value);
                let ghost st2 = st;
                self.structs.insert(i, st);
                proof {
                    assert(olds.remove(i as int).insert(i as int, st2) =~= olds.update(
                        i as int,
                        st2,
                    ));
                    lemma_structs_model_index(olds.update(i as int, st2));
                    lemma_structs_model_index(olds);
                    assert(structs_model(olds.update(i as int, st2)) =~= structs_model(
                        olds,
                    ).update(i as int, struct_model(st2)));
                    if res is Err {
                        assert(olds.update(i as int, st2) =~= olds);
                    }
                }
                res
            },
        }
    }

    /// The named struct, if declared.
    pub fn get_struct(&self, name: &str) -> (r: Option<&TycoStruct>)
        ensures
            r matches Some(s) ==> spec_struct_lookup(structs_model(self.structs@), name@) == Some(
                struct_model(*s),
            ),
            r is None ==> spec_struct_lookup(structs_model(self.structs@), name@) is None,
    {
        proof {
            lemma_structs_model_index(self.structs@);
        }
        match find_struct_idx(&self.structs, name) {
            Some(i) => Some(&self.structs[i]),
            None => None,
        }
    }
}

} // verus!
