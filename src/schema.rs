//! The caller's schema: which node categories and which of their fields to
//! decode, and the tags that name a node's category.
use vstd::prelude::*;

use crate::event::bytes_eq;
use crate::loc::{BareSourceLocation, LocV, SourceRange};

verus! {

/// What a declared field holds.
#[derive(Debug, Clone, Copy, PartialEq, Eq, Structural)]
pub enum FieldType {
    Str,
    U64,
    Bool,
    /// A source position (`loc`).
    Loc,
    /// A `{begin, end}` source range (`range`).
    Range,
    /// The node's own category; filled from the tag, never read from a field.
    Kind,
}

/// A field that the schema asks for, by its name in the document.
#[derive(Debug)]
pub struct Field {
    pub name: Vec<u8>,
    pub ty: FieldType,
}

/// One variant of a tagged-union schema, chosen by a category name.
#[derive(Debug)]
pub struct Variant {
    pub name: Vec<u8>,
    pub fields: Vec<Field>,
}

/// The shape decoded out of every node.
#[derive(Debug)]
pub enum Schema {
    /// One variant per category of interest; other categories go to the
    /// fallback, and without a fallback they are an error.
    Union { variants: Vec<Variant>, fallback: Option<Vec<Field>> },
    /// The same fields out of every node, whatever its category.
    Record { fields: Vec<Field> },
}

/// A node's category: one of the schema's variant names, another name, or
/// none at all.
#[derive(Debug)]
pub enum Tag {
    Null,
    /// The index of the union variant of that name.
    Known(usize),
    /// A name that the schema does not list, as it stands in the document.
    Unknown(Vec<u8>),
}

pub enum TagV {
    Null,
    Known(usize),
    Unknown(Seq<u8>),
}

impl View for Tag {
    type V = TagV;

    open spec fn view(&self) -> TagV {
        match self {
            Tag::Null => TagV::Null,
            Tag::Known(i) => TagV::Known(*i),
            Tag::Unknown(t) => TagV::Unknown(t@),
        }
    }
}

impl Tag {
    pub fn duplicate(&self) -> (r: Tag)
        ensures
            r@ == self@,
    {
        match self {
            Tag::Null => Tag::Null,
            Tag::Known(i) => Tag::Known(*i),
            Tag::Unknown(t) => Tag::Unknown(t.clone()),
        }
    }
}

/// A decoded field value; `Absent` when the document omits the field or
/// holds `null` there.
#[derive(Debug)]
pub enum Value {
    Absent,
    Str(Vec<u8>),
    U64(u64),
    Bool(bool),
    Loc(BareSourceLocation),
    Range(SourceRange),
    Kind(Tag),
}

pub enum ValueV {
    Absent,
    Str(Seq<u8>),
    U64(u64),
    Bool(bool),
    Loc(LocV),
    Range(LocV, LocV),
    Kind(TagV),
}

impl View for Value {
    type V = ValueV;

    open spec fn view(&self) -> ValueV {
        match self {
            Value::Absent => ValueV::Absent,
            Value::Str(t) => ValueV::Str(t@),
            Value::U64(n) => ValueV::U64(*n),
            Value::Bool(b) => ValueV::Bool(*b),
            Value::Loc(l) => ValueV::Loc(l@),
            Value::Range(g) => ValueV::Range(g.begin@, g.end@),
            Value::Kind(t) => ValueV::Kind(t@),
        }
    }
}

/// What the schema made of one node: the union variant (`None` for the
/// fallback or a record) and one value per field of that shape, in order.
#[derive(Debug)]
pub struct Category {
    pub variant: Option<usize>,
    pub fields: Vec<Value>,
}

pub struct CategoryV {
    pub variant: Option<usize>,
    pub fields: Seq<ValueV>,
}

pub open spec fn values_view(v: Seq<Value>) -> Seq<ValueV> {
    v.map_values(|x: Value| x@)
}

impl View for Category {
    type V = CategoryV;

    open spec fn view(&self) -> CategoryV {
        CategoryV { variant: self.variant, fields: values_view(self.fields@) }
    }
}

/// The first variant at or after `k` whose name is `name`.
pub open spec fn variant_index(vs: Seq<Variant>, name: Seq<u8>, k: int) -> Option<usize>
    decreases vs.len() - k,
{
    if k < 0 || k >= vs.len() {
        None
    } else if vs[k].name@ == name {
        Some(k as usize)
    } else {
        variant_index(vs, name, k + 1)
    }
}

/// The tag of a category name under a schema.
pub open spec fn classify(sc: Schema, name: Seq<u8>) -> TagV {
    match sc {
        Schema::Union { variants, .. } => match variant_index(variants@, name, 0) {
            Some(i) => TagV::Known(i),
            None => TagV::Unknown(name),
        },
        Schema::Record { .. } => TagV::Unknown(name),
    }
}

/// The variant and the field list that a tag selects; `None` when a union
/// has neither a matching variant nor a fallback.
pub open spec fn select(sc: Schema, tag: TagV) -> Option<(Option<usize>, Seq<Field>)> {
    match sc {
        Schema::Union { variants, fallback } => match tag {
            TagV::Known(i) => if i < variants.len() {
                Some((Some(i), variants@[i as int].fields@))
            } else {
                None
            },
            _ => match fallback {
                Some(f) => Some((None, f@)),
                None => None,
            },
        },
        Schema::Record { fields } => Some((None, fields@)),
    }
}

/// The values a node starts with: its tag in each `Kind` field, and
/// `Absent` elsewhere.
pub open spec fn initial_values(fs: Seq<Field>, tag: TagV) -> Seq<ValueV> {
    Seq::new(fs.len(), |k: int| if fs[k].ty == FieldType::Kind { ValueV::Kind(tag) } else { ValueV::Absent })
}

/// The first field at or after `k` that is read from the document under the
/// key `key`.
pub open spec fn field_index(fs: Seq<Field>, key: Seq<u8>, k: int) -> Option<usize>
    decreases fs.len() - k,
{
    if k < 0 || k >= fs.len() {
        None
    } else if fs[k].name@ == key && fs[k].ty != FieldType::Kind {
        Some(k as usize)
    } else {
        field_index(fs, key, k + 1)
    }
}

fn find_variant(vs: &Vec<Variant>, name: &Vec<u8>) -> (r: Option<usize>)
    ensures
        r == variant_index(vs@, name@, 0),
{
    let mut k: usize = 0;
    while k < vs.len()
        invariant
            0 <= k <= vs@.len(),
            variant_index(vs@, name@, k as int) == variant_index(vs@, name@, 0),
        decreases vs.len() - k,
    {
        if bytes_eq(&vs[k].name, name) {
            return Some(k);
        }
        k = k + 1;
    }
    None
}

/// Classifies a category name.
pub fn classify_name(sc: &Schema, name: &Vec<u8>) -> (r: Tag)
    ensures
        r@ == classify(*sc, name@),
{
    match sc {
        Schema::Union { variants, .. } => match find_variant(variants, name) {
            Some(k) => Tag::Known(k),
            None => Tag::Unknown(name.clone()),
        },
        Schema::Record { .. } => Tag::Unknown(name.clone()),
    }
}

/// The variant and field list that a tag selects.
pub fn select_fields<'a>(sc: &'a Schema, tag: &Tag) -> (r: Option<(Option<usize>, &'a Vec<Field>)>)
    ensures
        match (r, select(*sc, tag@)) {
            (Some((v, f)), Some((vv, fv))) => v == vv && f@ == fv,
            (None, None) => true,
            _ => false,
        },
{
    match sc {
        Schema::Union { variants, fallback } => match tag {
            Tag::Known(i) => if *i < variants.len() {
                Some((Some(*i), &variants[*i].fields))
            } else {
                None
            },
            _ => match fallback {
                Some(f) => Some((None, f)),
                None => None,
            },
        },
        Schema::Record { fields } => Some((None, fields)),
    }
}

/// The first field read under `key`, if the shape declares one.
pub fn find_field(fs: &Vec<Field>, key: &Vec<u8>) -> (r: Option<usize>)
    ensures
        r == field_index(fs@, key@, 0),
        r matches Some(f) ==> f < fs@.len(),
{
    let mut k: usize = 0;
    while k < fs.len()
        invariant
            0 <= k <= fs@.len(),
            field_index(fs@, key@, k as int) == field_index(fs@, key@, 0),
        decreases fs.len() - k,
    {
        if fs[k].ty != FieldType::Kind && bytes_eq(&fs[k].name, key) {
            return Some(k);
        }
        k = k + 1;
    }
    None
}

/// The starting values of a node's fields.
pub fn initial_fields(fs: &Vec<Field>, tag: &Tag) -> (r: (Vec<Value>, Vec<bool>))
    ensures
        values_view(r.0@) == initial_values(fs@, tag@),
        r.0@.len() == fs@.len(),
        r.1@ == Seq::new(fs@.len(), |k: int| false),
{
    let mut vals: Vec<Value> = Vec::new();
    let mut seen: Vec<bool> = Vec::new();
    let mut k: usize = 0;
    while k < fs.len()
        invariant
            0 <= k <= fs@.len(),
            values_view(vals@) == initial_values(fs@, tag@).subrange(0, k as int),
            vals@.len() == k,
            seen@ == Seq::new(k as nat, |j: int| false),
        decreases fs.len() - k,
    {
        let ghost prev = vals@;
        let v = if fs[k].ty == FieldType::Kind {
            Value::Kind(tag.duplicate())
        } else {
            Value::Absent
        };
        assert(v@ == initial_values(fs@, tag@)[k as int]);
        vals.push(v);
        assert(vals@ == prev.push(v));
        assert(values_view(vals@) =~= values_view(prev).push(v@));
        seen.push(false);
        k = k + 1;
        assert(values_view(vals@) =~= initial_values(fs@, tag@).subrange(0, k as int));
        assert(seen@ =~= Seq::new(k as nat, |j: int| false));
    }
    assert(initial_values(fs@, tag@).subrange(0, k as int) =~= initial_values(fs@, tag@));
    (vals, seen)
}

} // verus!
