//! The document model: typed values, string values with template flags,
//! instances (ordered field/value records), and references to instances of
//! another struct by primary key.
use vstd::prelude::*;
use crate::utils;

verus! {

// ---------------------------------------------------------------------------
// Mathematical models
// ---------------------------------------------------------------------------
/// Model of a string value: its text and the two flags that drive template
/// rendering.
pub struct SpecStr {
    pub text: Seq<char>,
    pub has_template: bool,
    pub is_literal: bool,
}

/// Model of a value.
pub enum SpecValue {
    Null,
    Bool(bool),
    Int(int),
    Float(Seq<char>),
    Str(SpecStr),
    Date(Seq<char>),
    Time(Seq<char>),
    DateTime(Seq<char>),
    Array(Seq<SpecValue>),
    Instance(SpecInstance),
    Reference(SpecReference),
}

/// Model of one named field of an instance.
pub struct SpecField {
    pub name: Seq<char>,
    pub value: SpecValue,
}

/// Model of an instance: owning struct name and ordered fields.
pub struct SpecInstance {
    pub struct_name: Seq<char>,
    pub fields: Seq<SpecField>,
}

/// Model of a reference: target struct, primary-key text, and the resolved
/// payload once attached.
pub struct SpecReference {
    pub struct_name: Seq<char>,
    pub primary_key: Seq<char>,
    pub resolved: Option<SpecInstance>,
}

// ---------------------------------------------------------------------------
// Executable types
// ---------------------------------------------------------------------------
/// A string value: the text plus whether it may hold `{...}` placeholders
/// and whether it is a raw (never templated) literal.
#[derive(Debug, PartialEq)]
pub struct TycoString {
    pub value: String,
    pub has_template: bool,
    pub is_literal: bool,
}

/// One named field of an instance.
#[derive(Debug, PartialEq)]
pub struct TycoField {
    pub name: String,
    pub value: TycoValue,
}

/// A parsed value: primitives, normalized date/time text, arrays, inline
/// instances and references. A float is kept as its canonical decimal text.
#[derive(Debug, PartialEq)]
pub enum TycoValue {
    Null,
    Bool(bool),
    Int(i64),
    Float(String),
    Str(TycoString),
    Date(String),
    Time(String),
    DateTime(String),
    Array(Vec<TycoValue>),
    Instance(TycoInstance),
    Reference(TycoReference),
}

/// One record of a struct: the owning struct's name and an ordered list of
/// named fields, names unique.
#[derive(Debug, PartialEq)]
pub struct TycoInstance {
    pub struct_name: String,
    pub fields: Vec<TycoField>,
}

/// An unresolved (struct, primary key) pair; resolution attaches an owned
/// copy of the matched instance, never an alias into the struct's list.
#[derive(Debug, PartialEq)]
pub struct TycoReference {
    pub struct_name: String,
    pub primary_key: String,
    pub resolved: Option<Box<TycoInstance>>,
}

// ---------------------------------------------------------------------------
// The model of each executable value
// ---------------------------------------------------------------------------
pub open spec fn str_model(s: TycoString) -> SpecStr {
    SpecStr { text: s.value@, has_template: s.has_template, is_literal: s.is_literal }
}

pub open spec fn value_model(v: TycoValue) -> SpecValue
    decreases v,
{
    match v {
        TycoValue::Null => SpecValue::Null,
        TycoValue::Bool(b) => SpecValue::Bool(b),
        TycoValue::Int(i) => SpecValue::Int(i as int),
        TycoValue::Float(t) => SpecValue::Float(t@),
        TycoValue::Str(s) => SpecValue::Str(str_model(s)),
        TycoValue::Date(t) => SpecValue::Date(t@),
        TycoValue::Time(t) => SpecValue::Time(t@),
        TycoValue::DateTime(t) => SpecValue::DateTime(t@),
        TycoValue::Array(items) => SpecValue::Array(values_model(items@)),
        TycoValue::Instance(inst) => SpecValue::Instance(instance_model(inst)),
        TycoValue::Reference(r) => SpecValue::Reference(reference_model(r)),
    }
}

pub open spec fn values_model(s: Seq<TycoValue>) -> Seq<SpecValue>
    decreases s,
{
    if s.len() == 0 {
        Seq::empty()
    } else {
        seq![value_model(s[0])] + values_model(s.skip(1))
    }
}

pub open spec fn fields_model(s: Seq<TycoField>) -> Seq<SpecField>
    decreases s,
{
    if s.len() == 0 {
        Seq::empty()
    } else {
        seq![field_model(s[0])] + fields_model(s.skip(1))
    }
}

pub open spec fn field_model(f: TycoField) -> SpecField
    decreases f,
{
    SpecField { name: f.name@, value: value_model(f.value) }
}

pub open spec fn instance_model(inst: TycoInstance) -> SpecInstance
    decreases inst,
{
    SpecInstance { struct_name: inst.struct_name@, fields: fields_model(inst.fields@) }
}

pub open spec fn reference_model(r: TycoReference) -> SpecReference
    decreases r,
{
    SpecReference {
        struct_name: r.struct_name@,
        primary_key: r.primary_key@,
        resolved: match r.resolved {
            None => None,
            Some(b) => Some(instance_model(*b)),
        },
    }
}

/// `values_model` maps index-wise.
pub proof fn lemma_values_model_index(s: Seq<TycoValue>)
    ensures
        values_model(s).len() == s.len(),
        forall|i: int| 0 <= i < s.len() ==> values_model(s)[i] == value_model(s[i]),
    decreases s,
{
    if s.len() > 0 {
        lemma_values_model_index(s.skip(1));
    }
}

/// `fields_model` maps index-wise.
pub proof fn lemma_fields_model_index(s: Seq<TycoField>)
    ensures
        fields_model(s).len() == s.len(),
        forall|i: int| 0 <= i < s.len() ==> fields_model(s)[i] == field_model(s[i]),
    decreases s,
{
    if s.len() > 0 {
        lemma_fields_model_index(s.skip(1));
    }
}

/// Appending a field appends its model.
pub proof fn lemma_fields_model_push(s: Seq<TycoField>, f: TycoField)
    ensures
        fields_model(s.push(f)) == fields_model(s).push(field_model(f)),
{
    lemma_fields_model_index(s.push(f));
    lemma_fields_model_index(s);
    assert(s.push(f)[s.len() as int] == f);
    assert(forall|i: int| 0 <= i < s.len() ==> s.push(f)[i] == s[i]);
    assert(fields_model(s.push(f)) =~= fields_model(s).push(field_model(f)));
}

/// Updating a field updates its model.
pub proof fn lemma_fields_model_update(s: Seq<TycoField>, i: int, f: TycoField)
    requires
        0 <= i < s.len(),
    ensures
        fields_model(s.update(i, f)) == fields_model(s).update(i, field_model(f)),
{
    lemma_fields_model_index(s.update(i, f));
    lemma_fields_model_index(s);
    assert(fields_model(s.update(i, f)) =~= fields_model(s).update(i, field_model(f)));
}

/// Appending a value appends its model.
pub proof fn lemma_values_model_push(s: Seq<TycoValue>, v: TycoValue)
    ensures
        values_model(s.push(v)) == values_model(s).push(value_model(v)),
{
    lemma_values_model_index(s.push(v));
    lemma_values_model_index(s);
    assert(s.push(v)[s.len() as int] == v);
    assert(forall|i: int| 0 <= i < s.len() ==> s.push(v)[i] == s[i]);
    assert(values_model(s.push(v)) =~= values_model(s).push(value_model(v)));
}

// ---------------------------------------------------------------------------
// Field lookup, update and removal at the model level
// ---------------------------------------------------------------------------
/// Index of the first field named `name`.
pub open spec fn field_index_of(fields: Seq<SpecField>, name: Seq<char>) -> Option<int>
    decreases fields.len(),
{
    if fields.len() == 0 {
        None
    } else if fields[0].name == name {
        Some(0)
    } else {
        match field_index_of(fields.skip(1), name) {
            None => None,
            Some(i) => Some(i + 1),
        }
    }
}

/// The value of the first field named `name`.
pub open spec fn spec_lookup(fields: Seq<SpecField>, name: Seq<char>) -> Option<SpecValue> {
    match field_index_of(fields, name) {
        None => None,
        Some(i) => Some(fields[i].value),
    }
}

/// What `set_attribute` does: replace the value in place where the name is
/// bound, append a new field otherwise.
pub open spec fn spec_set_field(fields: Seq<SpecField>, name: Seq<char>, value: SpecValue) -> Seq<
    SpecField,
> {
    match field_index_of(fields, name) {
        None => fields.push(SpecField { name, value }),
        Some(i) => fields.update(i, SpecField { name, value }),
    }
}

/// What `remove_attribute` does to the field list.
pub open spec fn spec_remove_field(fields: Seq<SpecField>, name: Seq<char>) -> Seq<SpecField> {
    match field_index_of(fields, name) {
        None => fields,
        Some(i) => fields.remove(i),
    }
}

/// The names of the fields, in order.
pub open spec fn field_names(fields: Seq<SpecField>) -> Seq<Seq<char>> {
    Seq::new(fields.len(), |i: int| fields[i].name)
}

/// Field names are unique.
pub open spec fn wf_fields(fields: Seq<SpecField>) -> bool {
    forall|i: int, j: int| 0 <= i < j < fields.len() ==> fields[i].name != fields[j].name
}

/// `field_index_of` finds the first match: the characterization used by the
/// executable search.
pub proof fn lemma_field_index_first(fields: Seq<SpecField>, name: Seq<char>)
    ensures
        field_index_of(fields, name) is None ==> forall|j: int|
            0 <= j < fields.len() ==> fields[j].name != name,
        field_index_of(fields, name) matches Some(i) ==> 0 <= i < fields.len() && fields[i].name
            == name && forall|j: int| 0 <= j < i ==> fields[j].name != name,
    decreases fields.len(),
{
    if fields.len() > 0 && fields[0].name != name {
        lemma_field_index_first(fields.skip(1), name);
        assert(forall|j: int| 1 <= j < fields.len() ==> fields[j] == fields.skip(1)[j - 1]);
    }
}

/// Executable first-match search, tied to `field_index_of`.
pub fn find_field_idx(fields: &Vec<TycoField>, name: &str) -> (r: Option<usize>)
    ensures
        r matches Some(i) ==> field_index_of(fields_model(fields@), name@) == Some(i as int) && i
            < fields@.len(),
        r is None ==> field_index_of(fields_model(fields@), name@) is None,
{
    proof {
        lemma_fields_model_index(fields@);
        lemma_field_index_first(fields_model(fields@), name@);
    }
    let mut i: usize = 0;
    while i < fields.len()
        invariant
            i <= fields@.len(),
            fields_model(fields@).len() == fields@.len(),
            forall|j: int|
                0 <= j < fields@.len() ==> fields_model(fields@)[j] == field_model(fields@[j]),
            forall|j: int| 0 <= j < i as int ==> fields_model(fields@)[j].name != name@,
        decreases fields@.len() - i,
    {
        if utils::str_eq(fields[i].name.as_str(), name) {
            proof {
                lemma_field_index_first(fields_model(fields@), name@);
                let oi = field_index_of(fields_model(fields@), name@);
                assert(fields_model(fields@)[i as int].name == name@);
                assert(oi is Some);
                let k = oi.unwrap();
                if k < i as int {
                    assert(fields_model(fields@)[k].name != name@);
                }
                if k > i as int {
                    assert(fields_model(fields@)[i as int].name != name@);
                }
                assert(oi == Some(i as int));
            }
            return Some(i);
        }
        i = i + 1;
    }
    proof {
        lemma_field_index_first(fields_model(fields@), name@);
    }
    None
}

// ---------------------------------------------------------------------------
// Deep copies
// ---------------------------------------------------------------------------
/// An owned copy with the same model.
pub fn clone_value(v: &TycoValue) -> (r: TycoValue)
    ensures
        value_model(r) == value_model(*v),
    decreases *v,
{
    match v {
        TycoValue::Null => TycoValue::Null,
        TycoValue::Bool(b) => TycoValue::Bool(*b),
        TycoValue::Int(i) => TycoValue::Int(*i),
        TycoValue::Float(t) => TycoValue::Float(t.clone()),
        TycoValue::Str(s) => TycoValue::Str(
            TycoString {
                value: s.value.clone(),
                has_template: s.has_template,
                is_literal: s.is_literal,
            },
        ),
        TycoValue::Date(t) => TycoValue::Date(t.clone()),
        TycoValue::Time(t) => TycoValue::Time(t.clone()),
        TycoValue::DateTime(t) => TycoValue::DateTime(t.clone()),
        TycoValue::Array(items) => {
            let out = clone_values(items);
            proof {
                lemma_values_model_index(out@);
                lemma_values_model_index(items@);
                assert(values_model(out@) =~= values_model(items@));
            }
            TycoValue::Array(out)
        },
        TycoValue::Instance(inst) => TycoValue::Instance(clone_instance(inst)),
        TycoValue::Reference(r) => TycoValue::Reference(clone_reference(r)),
    }
}

pub fn clone_values(items: &Vec<TycoValue>) -> (r: Vec<TycoValue>)
    ensures
        r@.len() == items@.len(),
        forall|j: int| 0 <= j < items@.len() ==> value_model(r@[j]) == value_model(items@[j]),
    decreases items@,
{
    let mut out: Vec<TycoValue> = Vec::new();
    let mut i: usize = 0;
    while i < items.len()
        invariant
            i <= items@.len(),
            out@.len() == i as int,
            forall|j: int| 0 <= j < i as int ==> value_model(out@[j]) == value_model(items@[j]),
        decreases items@.len() - i,
    {
        proof {
            assert(decreases_to!(items@ => items@[i as int]));
        }
        out.push(clone_value(&items[i]));
        i = i + 1;
    }
    out
}

pub fn clone_instance(inst: &TycoInstance) -> (r: TycoInstance)
    ensures
        instance_model(r) == instance_model(*inst),
    decreases *inst,
{
    let mut out: Vec<TycoField> = Vec::new();
    let mut i: usize = 0;
    while i < inst.fields.len()
        invariant
            i <= inst.fields@.len(),
            out@.len() == i as int,
            forall|j: int|
                0 <= j < i as int ==> field_model(out@[j]) == field_model(inst.fields@[j]),
        decreases inst.fields@.len() - i,
    {
        proof {
            assert(decreases_to!(*inst => inst.fields@[i as int]));
        }
        let f = &inst.fields[i];
        let name2 = f.name.clone();
        let value2 = clone_value(&f.value);
        out.push(TycoField { name: name2, value: value2 });
        i = i + 1;
    }
    proof {
        lemma_fields_model_index(out@);
        lemma_fields_model_index(inst.fields@);
        assert(fields_model(out@) =~= fields_model(inst.fields@));
    }
    TycoInstance { struct_name: inst.struct_name.clone(), fields: out }
}

pub fn clone_reference(r: &TycoReference) -> (out: TycoReference)
    ensures
        reference_model(out) == reference_model(*r),
    decreases *r,
{
    let resolved: Option<Box<TycoInstance>> = match &r.resolved {
        None => None,
        Some(b) => {
            proof {
                assert(decreases_to!(*r => r.resolved));
            }
            Some(Box::new(clone_instance(&**b)))
        },
    };
    TycoReference {
        struct_name: r.struct_name.clone(),
        primary_key: r.primary_key.clone(),
        resolved,
    }
}

// ---------------------------------------------------------------------------
// Display text used by template substitution
// ---------------------------------------------------------------------------
/// How a resolved value reads inside a template: primitives as their
/// literal text, arrays and instances as fixed opaque tokens, references as
/// their primary-key text.
pub open spec fn spec_template_text(v: SpecValue) -> Seq<char> {
    match v {
        SpecValue::Null => "null"@,
        SpecValue::Bool(b) => if b {
            "true"@
        } else {
            "false"@
        },
        SpecValue::Int(i) => utils::spec_i64_text(i),
        SpecValue::Float(t) => t,
        SpecValue::Str(s) => s.text,
        SpecValue::Date(t) => t,
        SpecValue::Time(t) => t,
        SpecValue::DateTime(t) => t,
        SpecValue::Array(_) => "[array]"@,
        SpecValue::Instance(_) => "[instance]"@,
        SpecValue::Reference(r) => r.primary_key,
    }
}

impl TycoValue {
    /// The display text a placeholder resolves to.
    pub fn to_template_text(&self) -> (r: String)
        ensures
            r@ == spec_template_text(value_model(*self)),
    {
        match self {
            TycoValue::Null => String::from_str("null"),
            TycoValue::Bool(b) => if *b {
                String::from_str("true")
            } else {
                String::from_str("false")
            },
            TycoValue::Int(i) => utils::i64_text(*i),
            TycoValue::Float(t) => t.clone(),
            TycoValue::Str(s) => s.value.clone(),
            TycoValue::Date(t) => t.clone(),
            TycoValue::Time(t) => t.clone(),
            TycoValue::DateTime(t) => t.clone(),
            TycoValue::Array(_) => String::from_str("[array]"),
            TycoValue::Instance(_) => String::from_str("[instance]"),
            TycoValue::Reference(r) => r.primary_key.clone(),
        }
    }
}

// ---------------------------------------------------------------------------
// TycoString
// ---------------------------------------------------------------------------
impl TycoString {
    pub fn new(value: String, has_template: bool, is_literal: bool) -> (r: TycoString)
        ensures
            str_model(r) == (SpecStr { text: value@, has_template, is_literal }),
    {
        TycoString { value, has_template, is_literal }
    }
}

// ---------------------------------------------------------------------------
// TycoReference
// ---------------------------------------------------------------------------
impl TycoReference {
    /// A reference that awaits resolution.
    pub fn new(struct_name: String, primary_key: String) -> (r: TycoReference)
        ensures
            reference_model(r) == (SpecReference {
                struct_name: struct_name@,
                primary_key: primary_key@,
                resolved: None,
            }),
    {
        TycoReference { struct_name, primary_key, resolved: None }
    }
}

// ---------------------------------------------------------------------------
// TycoInstance
// ---------------------------------------------------------------------------
impl TycoInstance {
    /// An instance of the named struct with no fields yet.
    pub fn new(name: &str) -> (r: TycoInstance)
        ensures
            instance_model(r) == (SpecInstance { struct_name: name@, fields: Seq::empty() }),
    {
        let n = String::from_str(name);
        TycoInstance { struct_name: n, fields: Vec::new() }
    }

    pub fn struct_name(&self) -> (r: &String)
        ensures
            r@ == self.struct_name@,
    {
        &self.struct_name
    }

    /// Binds `name` to `value`: replaces the value in place where the name
    /// is already bound, appends a new field otherwise. Keeps names unique.
    pub fn set_attribute(&mut self, name: String, value: TycoValue)
        ensures
            final(self).struct_name@ == old(self).struct_name@,
            fields_model(final(self).fields@) == spec_set_field(
                fields_model(old(self).fields@),
                name@,
                value_model(value),
            ),
            wf_fields(fields_model(old(self).fields@)) ==> wf_fields(
                fields_model(final(self).fields@),
            ),
    {
        proof {
            lemma_fields_model_index(self.fields@);
            lemma_field_index_first(fields_model(self.fields@), name@);
        }
        match find_field_idx(&self.fields, name.as_str()) {
            Some(i) => {
                let f = TycoField { name, value };
                let ghost oldfields = self.fields@;
                self.fields.set(i, f);
                proof {
                    lemma_fields_model_update(oldfields, i as int, f);
                    assert(field_model(f) == (SpecField { name: name@, value: value_model(value) }));
                    if wf_fields(fields_model(oldfields)) {
                        lemma_wf_set(fields_model(oldfields), name@, value_model(value));
                    }
                }
            },
            None => {
                let f = TycoField { name, value };
                let ghost oldfields = self.fields@;
                self.fields.push(f);
                proof {
                    lemma_fields_model_push(oldfields, f);
                    lemma_field_index_first(fields_model(oldfields), name@);
                    if wf_fields(fields_model(oldfields)) {
                        lemma_wf_set(fields_model(oldfields), name@, value_model(value));
                    }
                }
            },
        }
    }

    /// The value bound to `name`, if any.
    pub fn get_attribute(&self, name: &str) -> (r: Option<&TycoValue>)
        ensures
            r matches Some(v) ==> spec_lookup(fields_model(self.fields@), name@) == Some(
                value_model(*v),
            ),
            r is None ==> spec_lookup(fields_model(self.fields@), name@) is None,
    {
        proof {
            lemma_fields_model_index(self.fields@);
        }
        match find_field_idx(&self.fields, name) {
            Some(i) => Some(&self.fields[i].value),
            None => None,
        }
    }

    /// Removes the field bound to `name` and returns its value.
    pub fn remove_attribute(&mut self, name: &str) -> (r: Option<TycoValue>)
        ensures
            final(self).struct_name@ == old(self).struct_name@,
            fields_model(final(self).fields@) == spec_remove_field(
                fields_model(old(self).fields@),
                name@,
            ),
            r matches Some(v) ==> spec_lookup(fields_model(old(self).fields@), name@) == Some(
                value_model(v),
            ),
            r is None <==> spec_lookup(fields_model(old(self).fields@), name@) is None,
    {
        proof {
            lemma_fields_model_index(self.fields@);
        }
        match find_field_idx(&self.fields, name) {
            Some(i) => {
                let ghost oldfields = self.fields@;
                let f = self.fields.remove(i);
                proof {
                    lemma_fields_model_remove(oldfields, i as int);
                    lemma_fields_model_index(oldfields);
                }
                Some(f.value)
            },
            None => None,
        }
    }

    /// True when `name` is bound.
    pub fn has_attribute(&self, name: &str) -> (r: bool)
        ensures
            r == (spec_lookup(fields_model(self.fields@), name@) is Some),
    {
        match find_field_idx(&self.fields, name) {
            Some(_) => true,
            None => false,
        }
    }

    /// The field names in order.
    pub fn field_order(&self) -> (r: Vec<String>)
        ensures
            utils::views_of(r@) == field_names(fields_model(self.fields@)),
    {
        proof {
            lemma_fields_model_index(self.fields@);
        }
        let mut out: Vec<String> = Vec::new();
        let mut i: usize = 0;
        while i < self.fields.len()
            invariant
                i <= self.fields@.len(),
                out@.len() == i as int,
                fields_model(self.fields@).len() == self.fields@.len(),
                forall|j: int|
                    0 <= j < self.fields@.len() ==> fields_model(self.fields@)[j] == field_model(
                        self.fields@[j],
                    ),
                forall|j: int|
                    0 <= j < i as int ==> out@[j]@ == fields_model(self.fields@)[j].name,
            decreases self.fields@.len() - i,
        {
            out.push(self.fields[i].name.clone());
            i = i + 1;
        }
        proof {
            assert(utils::views_of(out@) =~= field_names(fields_model(self.fields@)));
        }
        out
    }

    /// The fields themselves, read-only.
    pub fn attributes(&self) -> (r: &Vec<TycoField>)
        ensures
            r == &self.fields,
    {
        &self.fields
    }

    /// The fields themselves, writable; the caller is trusted to keep
    /// names unique.
    pub fn attributes_mut(&mut self) -> (r: &mut Vec<TycoField>)
        ensures
            *r == old(self).fields,
            final(self).fields == *final(r),
            final(self).struct_name == old(self).struct_name,
    {
        &mut self.fields
    }
}

// ---------------------------------------------------------------------------
// Schema-driven field reordering
// ---------------------------------------------------------------------------
/// The fields that the schema names, in schema order: for each schema name
/// that the instance binds, its (first) field.
pub open spec fn spec_picked(fields: Seq<SpecField>, names: Seq<Seq<char>>) -> Seq<SpecField>
    decreases names.len(),
{
    if names.len() == 0 {
        Seq::empty()
    } else {
        match field_index_of(fields, names[0]) {
            Some(i) => seq![fields[i]] + spec_picked(fields, names.skip(1)),
            None => spec_picked(fields, names.skip(1)),
        }
    }
}

pub open spec fn name_list_contains(names: Seq<Seq<char>>, n: Seq<char>) -> bool {
    exists|i: int| 0 <= i < names.len() && names[i] == n
}

/// The fields the schema does not name, in their original order.
pub open spec fn spec_rest(fields: Seq<SpecField>, names: Seq<Seq<char>>) -> Seq<SpecField>
    decreases fields.len(),
{
    if fields.len() == 0 {
        Seq::empty()
    } else if name_list_contains(names, fields[0].name) {
        spec_rest(fields.skip(1), names)
    } else {
        seq![fields[0]] + spec_rest(fields.skip(1), names)
    }
}

/// What `enforce_order_from_schema` produces: schema-declared fields first,
/// in declaration order, then the unknown fields in their original order.
pub open spec fn spec_enforce_order(fields: Seq<SpecField>, names: Seq<Seq<char>>) -> Seq<
    SpecField,
> {
    spec_picked(fields, names) + spec_rest(fields, names)
}

impl TycoInstance {
    /// Reorders the fields to schema declaration order, remaining unknown
    /// fields following in their original order.
    pub fn enforce_order_from_schema(&mut self, schema: &Vec<crate::context::FieldSchema>)
        ensures
            final(self).struct_name@ == old(self).struct_name@,
            fields_model(final(self).fields@) == spec_enforce_order(
                fields_model(old(self).fields@),
                crate::context::schema_names(crate::context::schemas_model(schema@)),
            ),
    {
        let ghost fm = fields_model(self.fields@);
        let ghost names = crate::context::schema_names(crate::context::schemas_model(schema@));
        proof {
            crate::context::lemma_schemas_model_index(schema@);
            lemma_fields_model_index(self.fields@);
            assert(names.skip(0) =~= names);
        }
        let mut out: Vec<TycoField> = Vec::new();
        let mut k: usize = 0;
        while k < schema.len()
            invariant
                k <= schema@.len(),
                names == crate::context::schema_names(crate::context::schemas_model(schema@)),
                names.len() == schema@.len(),
                forall|j: int|
                    0 <= j < schema@.len() ==> names[j] == crate::context::schema_model(
                        schema@[j],
                    ).name,
                fm == fields_model(self.fields@),
                fields_model(self.fields@).len() == self.fields@.len(),
                forall|j: int|
                    0 <= j < self.fields@.len() ==> fields_model(self.fields@)[j] == field_model(
                        self.fields@[j],
                    ),
                spec_picked(fm, names) == fields_model(out@) + spec_picked(
                    fm,
                    names.skip(k as int),
                ),
            decreases schema@.len() - k,
        {
            proof {
                assert(names.skip(k as int)[0] == names[k as int]);
                assert(names.skip(k as int).skip(1) =~= names.skip(k as int + 1));
            }
            let ghost preout = fields_model(out@);
            match find_field_idx(&self.fields, schema[k].name.as_str()) {
                Some(i) => {
                    let f = &self.fields[i];
                    let copy = TycoField { name: f.name.clone(), value: clone_value(&f.value) };
                    let ghost oldout = out@;
                    out.push(copy);
                    proof {
                        lemma_fields_model_push(oldout, copy);
                        assert(field_model(copy) == fm[i as int]);
                        assert(preout + (seq![fm[i as int]] + spec_picked(
                            fm,
                            names.skip(k as int + 1),
                        )) =~= (preout + seq![fm[i as int]]) + spec_picked(
                            fm,
                            names.skip(k as int + 1),
                        ));
                    }
                },
                None => {},
            }
            k = k + 1;
        }
        proof {
            assert(names.skip(schema@.len() as int).len() == 0);
            assert(fields_model(out@) == spec_picked(fm, names));
            assert(fm.skip(0) =~= fm);
        }
        let ghost picked = fields_model(out@);
        let mut j: usize = 0;
        while j < self.fields.len()
            invariant
                j <= self.fields@.len(),
                names == crate::context::schema_names(crate::context::schemas_model(schema@)),
                names.len() == schema@.len(),
                forall|q: int|
                    0 <= q < schema@.len() ==> names[q] == crate::context::schema_model(
                        schema@[q],
                    ).name,
                fm == fields_model(self.fields@),
                fields_model(self.fields@).len() == self.fields@.len(),
                forall|q: int|
                    0 <= q < self.fields@.len() ==> fields_model(self.fields@)[q] == field_model(
                        self.fields@[q],
                    ),
                picked == spec_picked(fm, names),
                fields_model(out@) + spec_rest(fm.skip(j as int), names) == picked + spec_rest(
                    fm,
                    names,
                ),
            decreases self.fields@.len() - j,
        {
            proof {
                assert(fm.skip(j as int)[0] == fm[j as int]);
                assert(fm.skip(j as int).skip(1) =~= fm.skip(j as int + 1));
            }
            let found = crate::context::find_schema_idx(schema, self.fields[j].name.as_str());
            let in_schema = found.is_some();
            proof {
                crate::context::lemma_schema_index_first(
                    crate::context::schemas_model(schema@),
                    self.fields@[j as int].name@,
                );
                assert(fm[j as int] == field_model(self.fields@[j as int]));
                if in_schema {
                    let oi = crate::context::schema_index_of(
                        crate::context::schemas_model(schema@),
                        self.fields@[j as int].name@,
                    );
                    assert(oi is Some);
                    let k = oi.unwrap();
                    assert(crate::context::schemas_model(schema@)[k].name == fm[j as int].name);
                    assert(names[k] == fm[j as int].name);
                    assert(name_list_contains(names, fm[j as int].name));
                } else {
                    let fname = fm[j as int].name;
                    assert forall|q: int| 0 <= q < names.len() implies names[q] != fname by {
                        assert(crate::context::schemas_model(schema@)[q].name == names[q]);
                    }
                    assert(!name_list_contains(names, fm[j as int].name));
                }
            }
            if !in_schema {
                let f = &self.fields[j];
                let copy = TycoField { name: f.name.clone(), value: clone_value(&f.value) };
                let ghost oldout = out@;
                out.push(copy);
                proof {
                    lemma_fields_model_push(oldout, copy);
                    assert(field_model(copy) == fm[j as int]);
                    assert(fields_model(out@) + spec_rest(fm.skip(j as int + 1), names)
                        =~= fields_model(oldout) + (seq![fm[j as int]] + spec_rest(
                        fm.skip(j as int + 1),
                        names,
                    )));
                }
            }
            j = j + 1;
        }
        proof {
            assert(fm.skip(self.fields@.len() as int).len() == 0);
            assert(fields_model(out@) + spec_rest(fm.skip(self.fields@.len() as int), names)
                =~= fields_model(out@));
            assert(fields_model(out@) =~= spec_enforce_order(fm, names));
        }
        self.fields = out;
    }
}

/// `spec_set_field` keeps names unique.
pub proof fn lemma_wf_set(fields: Seq<SpecField>, name: Seq<char>, value: SpecValue)
    requires
        wf_fields(fields),
    ensures
        wf_fields(spec_set_field(fields, name, value)),
{
    lemma_field_index_first(fields, name);
    match field_index_of(fields, name) {
        None => {
            let out = fields.push(SpecField { name, value });
            assert forall|i: int, j: int| 0 <= i < j < out.len() implies out[i].name
                != out[j].name by {
                if j == fields.len() as int {
                    assert(out[i] == fields[i]);
                } else {
                    assert(out[i] == fields[i] && out[j] == fields[j]);
                }
            }
        },
        Some(k) => {
            let out = fields.update(k, SpecField { name, value });
            assert forall|i: int, j: int| 0 <= i < j < out.len() implies out[i].name
                != out[j].name by {
                if i != k && j != k {
                    assert(out[i] == fields[i] && out[j] == fields[j]);
                } else if i == k {
                    assert(out[j] == fields[j]);
                    assert(fields[k].name == name);
                } else {
                    assert(out[i] == fields[i]);
                    assert(fields[k].name == name);
                }
            }
        },
    }
}

/// Model of removing the field at `i`.
pub proof fn lemma_fields_model_remove(s: Seq<TycoField>, i: int)
    requires
        0 <= i < s.len(),
    ensures
        fields_model(s.remove(i)) == fields_model(s).remove(i),
{
    lemma_fields_model_index(s.remove(i));
    lemma_fields_model_index(s);
    assert(fields_model(s.remove(i)) =~= fields_model(s).remove(i));
}

} // verus!
