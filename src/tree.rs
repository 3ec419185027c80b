//! Decoding a whole document: the tree builder and the field router.
use vstd::prelude::*;
use vstd::string::StringSliceAdditionalSpecFns;

use crate::error::DecodeError;
use crate::event::{is_start, key_is, skip_value, Event};
use crate::id::{hex_value, id_digits, id_text_valid, parse_id, Id};
use crate::intern::{extends, FileTable};
use crate::loc::{empty_loc, position, range, read_position, read_range, Context, Cx};
use crate::schema::{
    classify, classify_name, find_field, field_index, initial_fields, initial_values, select,
    select_fields, values_view, variant_index, Category, CategoryV, Field, FieldType, Schema, Tag, TagV, Value,
    ValueV,
};
use crate::Node;

verus! {

/// The mathematical value of a decoded node.
pub struct NodeV {
    pub id: u64,
    pub kind: CategoryV,
    pub inner: Seq<NodeV>,
}

pub open spec fn node_view(n: Node<Category>) -> NodeV
    decreases n,
{
    NodeV { id: n.id.0, kind: n.kind@, inner: nodes_view(n.inner@) }
}

pub open spec fn nodes_view(s: Seq<Node<Category>>) -> Seq<NodeV>
    decreases s,
{
    if s.len() == 0 {
        Seq::empty()
    } else {
        nodes_view(s.subrange(0, s.len() - 1)).push(node_view(s[s.len() - 1]))
    }
}


pub open spec fn id_or_zero(id: Option<u64>) -> u64 {
    match id {
        Some(v) => v,
        None => 0,
    }
}

/// Decodes the value of a declared field at `j`.
pub open spec fn field_value(ty: FieldType, s: Seq<Event>, j: int, cx: Cx) -> Result<(ValueV, int, Cx), DecodeError> {
    if j < 0 || j >= s.len() {
        Err(DecodeError::MalformedDocument)
    } else {
        match ty {
            FieldType::Str => match s[j] {
                Event::Str(t) => Ok((ValueV::Str(t@), j + 1, cx)),
                Event::Null => Ok((ValueV::Absent, j + 1, cx)),
                _ => Err(DecodeError::InvalidValue),
            },
            FieldType::U64 => match s[j] {
                Event::Num(n) => Ok((ValueV::U64(n), j + 1, cx)),
                Event::Null => Ok((ValueV::Absent, j + 1, cx)),
                _ => Err(DecodeError::InvalidValue),
            },
            FieldType::Bool => match s[j] {
                Event::Bool(b) => Ok((ValueV::Bool(b), j + 1, cx)),
                Event::Null => Ok((ValueV::Absent, j + 1, cx)),
                _ => Err(DecodeError::InvalidValue),
            },
            FieldType::Loc => match position(s, j, cx) {
                Ok((l, next, cx2)) => Ok((ValueV::Loc(l), next, cx2)),
                Err(e) => Err(e),
            },
            FieldType::Range => match range(s, j, cx) {
                Ok((b, e, next, cx2)) => Ok((ValueV::Range(b, e), next, cx2)),
                Err(e) => Err(e),
            },
            FieldType::Kind => Err(DecodeError::InvalidValue),
        }
    }
}

/// Decodes the object at `i` into one node.
pub open spec fn node(sc: Schema, s: Seq<Event>, i: int, cx: Cx) -> Result<(NodeV, int, Cx), DecodeError>
    decreases s.len() - i, 0int,
{
    if 0 <= i < s.len() && s[i] is ObjectStart {
        head(sc, s, i + 1, None, cx)
    } else {
        Err(DecodeError::MalformedDocument)
    }
}

/// Reads a node's fields up to its category: an optional `id`, then `kind`.
/// An object that ends first has the null tag.
pub open spec fn head(sc: Schema, s: Seq<Event>, j: int, id: Option<u64>, cx: Cx) -> Result<(NodeV, int, Cx), DecodeError>
    decreases s.len() - j, 1int,
{
    if j < 0 || j >= s.len() {
        Err(DecodeError::MalformedDocument)
    } else {
        match s[j] {
            Event::ObjectEnd => match select(sc, TagV::Null) {
                Some((v, fs)) => Ok((
                    NodeV {
                        id: id_or_zero(id),
                        kind: CategoryV { variant: v, fields: initial_values(fs, TagV::Null) },
                        inner: Seq::empty(),
                    },
                    j + 1,
                    cx,
                )),
                None => Err(DecodeError::MissingCategory),
            },
            Event::Key(k) => {
                if k@ == "id".spec_bytes() {
                    if id is Some {
                        Err(DecodeError::DuplicateField)
                    } else if j + 1 < s.len() && s[j + 1] is Str && id_text_valid(s[j + 1]->Str_0@) {
                        head(sc, s, j + 2, Some(hex_value(id_digits(s[j + 1]->Str_0@)) as u64), cx)
                    } else {
                        Err(DecodeError::MalformedIdentifier)
                    }
                } else if k@ == "kind".spec_bytes() {
                    if j + 1 < s.len() && s[j + 1] is Str {
                        let tag = classify(sc, s[j + 1]->Str_0@);
                        match select(sc, tag) {
                            Some((v, fs)) => match body(
                                sc,
                                s,
                                j + 2,
                                fs,
                                initial_values(fs, tag),
                                Seq::new(fs.len(), |q: int| false),
                                Seq::empty(),
                                false,
                                id is Some,
                                cx,
                            ) {
                                Ok((vals, kids, next, cx2)) => Ok((
                                    NodeV { id: id_or_zero(id), kind: CategoryV { variant: v, fields: vals }, inner: kids },
                                    next,
                                    cx2,
                                )),
                                Err(e) => Err(e),
                            },
                            None => Err(DecodeError::MissingCategory),
                        }
                    } else {
                        Err(DecodeError::InvalidValue)
                    }
                } else {
                    Err(DecodeError::MissingCategory)
                }
            },
            _ => Err(DecodeError::MalformedDocument),
        }
    }
}

/// Routes a node's fields after its category: `inner` to the children, a
/// declared field into its value, anything else skipped.
pub open spec fn body(
    sc: Schema,
    s: Seq<Event>,
    j: int,
    fs: Seq<Field>,
    vals: Seq<ValueV>,
    seen: Seq<bool>,
    kids: Seq<NodeV>,
    inner_seen: bool,
    id_seen: bool,
    cx: Cx,
) -> Result<(Seq<ValueV>, Seq<NodeV>, int, Cx), DecodeError>
    decreases s.len() - j, 1int,
{
    if j < 0 || j >= s.len() {
        Err(DecodeError::MalformedDocument)
    } else {
        match s[j] {
            Event::ObjectEnd => Ok((vals, kids, j + 1, cx)),
            Event::Key(k) => {
                if k@ == "inner".spec_bytes() {
                    if inner_seen {
                        Err(DecodeError::DuplicateField)
                    } else if j + 1 < s.len() && s[j + 1] is ArrayStart {
                        match children(sc, s, j + 2, Seq::empty(), cx) {
                            Ok((c, next, cx2)) => if j < next <= s.len() {
                                body(sc, s, next, fs, vals, seen, c, true, id_seen, cx2)
                            } else {
                                Err(DecodeError::MalformedDocument)
                            },
                            Err(e) => Err(e),
                        }
                    } else {
                        Err(DecodeError::MalformedDocument)
                    }
                } else if k@ == "kind".spec_bytes() || (id_seen && k@ == "id".spec_bytes()) {
                    Err(DecodeError::DuplicateField)
                } else {
                    match field_index(fs, k@, 0) {
                        Some(f) => if f < seen.len() && seen[f as int] {
                            Err(DecodeError::DuplicateField)
                        } else {
                            match field_value(fs[f as int].ty, s, j + 1, cx) {
                                Ok((v, next, cx2)) => if j < next <= s.len() {
                                    body(
                                        sc,
                                        s,
                                        next,
                                        fs,
                                        vals.update(f as int, v),
                                        seen.update(f as int, true),
                                        kids,
                                        inner_seen,
                                        id_seen,
                                        cx2,
                                    )
                                } else {
                                    Err(DecodeError::MalformedDocument)
                                },
                                Err(e) => Err(e),
                            }
                        },
                        None => match crate::event::value_end(s, j + 1, 0) {
                            Some(next) => if j < next <= s.len() {
                                body(sc, s, next, fs, vals, seen, kids, inner_seen, id_seen, cx)
                            } else {
                                Err(DecodeError::MalformedDocument)
                            },
                            None => Err(DecodeError::MalformedDocument),
                        },
                    }
                }
            },
            _ => Err(DecodeError::MalformedDocument),
        }
    }
}

/// Decodes the elements of an `inner` array from `j` to its `]`, each into a
/// child node, appended to `acc`.
pub open spec fn children(sc: Schema, s: Seq<Event>, j: int, acc: Seq<NodeV>, cx: Cx) -> Result<(Seq<NodeV>, int, Cx), DecodeError>
    decreases s.len() - j, 1int,
{
    if j < 0 || j >= s.len() {
        Err(DecodeError::MalformedDocument)
    } else {
        match s[j] {
            Event::ArrayEnd => Ok((acc, j + 1, cx)),
            _ => match node(sc, s, j, cx) {
                Ok((n, next, cx2)) => if j < next <= s.len() {
                    children(sc, s, next, acc.push(n), cx2)
                } else {
                    Err(DecodeError::MalformedDocument)
                },
                Err(e) => Err(e),
            },
        }
    }
}

/// The context a decode starts from.
pub open spec fn start_cx() -> Cx {
    Cx { files: Seq::empty(), cursor: empty_loc() }
}

/// Decodes a whole document: one root object and nothing after it. The
/// result holds the tree and the table of distinct file names.
pub open spec fn document(sc: Schema, s: Seq<Event>) -> Result<(NodeV, Seq<Seq<u8>>), DecodeError> {
    match node(sc, s, 0, start_cx()) {
        Ok((n, next, cx)) => if next == s.len() {
            Ok((n, cx.files))
        } else {
            Err(DecodeError::MalformedDocument)
        },
        Err(e) => Err(e),
    }
}


/// Executes [`field_value`].
fn read_field_value(ty: FieldType, s: &Vec<Event>, j: usize, cx: &mut Context) -> (r: Result<(Value, usize), DecodeError>)
    requires
        old(cx).wf(),
    ensures
        final(cx).wf(),
        extends(old(cx)@.files, final(cx)@.files),
        match (r, field_value(ty, s@, j as int, old(cx)@)) {
            (Ok((v, n)), Ok((vv, nv, cv))) => v@ == vv && n == nv && final(cx)@ == cv && j < n <= s@.len(),
            (Err(e), Err(ev)) => e == ev,
            _ => false,
        },
{
    if j >= s.len() {
        return Err(DecodeError::MalformedDocument);
    }
    match ty {
        FieldType::Str => match &s[j] {
            Event::Str(t) => Ok((Value::Str(t.clone()), j + 1)),
            Event::Null => Ok((Value::Absent, j + 1)),
            _ => Err(DecodeError::InvalidValue),
        },
        FieldType::U64 => match &s[j] {
            Event::Num(n) => Ok((Value::U64(*n), j + 1)),
            Event::Null => Ok((Value::Absent, j + 1)),
            _ => Err(DecodeError::InvalidValue),
        },
        FieldType::Bool => match &s[j] {
            Event::Bool(b) => Ok((Value::Bool(*b), j + 1)),
            Event::Null => Ok((Value::Absent, j + 1)),
            _ => Err(DecodeError::InvalidValue),
        },
        FieldType::Loc => match read_position(s, j, cx) {
            Ok((l, next)) => Ok((Value::Loc(l), next)),
            Err(e) => Err(e),
        },
        FieldType::Range => match read_range(s, j, cx) {
            Ok((g, next)) => Ok((Value::Range(g), next)),
            Err(e) => Err(e),
        },
        FieldType::Kind => Err(DecodeError::InvalidValue),
    }
}

proof fn lemma_nodes_view_push(kids: Seq<Node<Category>>, n: Node<Category>)
    ensures
        nodes_view(kids.push(n)) == nodes_view(kids).push(node_view(n)),
{
    let t = kids.push(n);
    assert(t.subrange(0, t.len() - 1) =~= kids);
}

/// Executes [`node`]: decodes the object at `i` and, depth first, its
/// children.
pub fn decode_node(sc: &Schema, s: &Vec<Event>, i: usize, cx: &mut Context) -> (r: Result<(Node<Category>, usize), DecodeError>)
    requires
        old(cx).wf(),
    ensures
        final(cx).wf(),
        extends(old(cx)@.files, final(cx)@.files),
        match (r, node(*sc, s@, i as int, old(cx)@)) {
            (Ok((n, k)), Ok((nv, kv, cv))) => node_view(n) == nv && k == kv && final(cx)@ == cv && i < k <= s@.len(),
            (Err(e), Err(ev)) => e == ev,
            _ => false,
        },
    decreases s@.len() - i, 0int,
{
    if i >= s.len() || !is_start(s, i, false) {
        return Err(DecodeError::MalformedDocument);
    }
    let ghost goal = head(*sc, s@, i + 1, None, old(cx)@);
    let mut id: Option<u64> = None;
    let mut k: usize = i + 1;
    loop
        invariant
            i < k,
            i < s@.len(),
            s@[i as int] is ObjectStart,
            cx.wf(),
            extends(old(cx)@.files, cx@.files),
            cx@ == old(cx)@,
            head(*sc, s@, k as int, id, cx@) == goal,
            goal == head(*sc, s@, i + 1, None, old(cx)@),
        decreases s@.len() - k,
    {
        if k >= s.len() {
            return Err(DecodeError::MalformedDocument);
        }
        match &s[k] {
            Event::ObjectEnd => {
                let tag = Tag::Null;
                match select_fields(sc, &tag) {
                    Some((v, fs)) => {
                        let (vals, _) = initial_fields(fs, &tag);
                        let inner: Vec<Node<Category>> = Vec::new();
                        let n = Node { id: Id(match id { Some(x) => x, None => 0 }), kind: Category { variant: v, fields: vals }, inner };
                        assert(nodes_view(n.inner@) =~= Seq::<NodeV>::empty());
                        return Ok((n, k + 1));
                    },
                    None => {
                        return Err(DecodeError::MissingCategory);
                    },
                }
            },
            Event::Key(key) => {
                if key_is(key, "id") {
                    if id.is_some() {
                        return Err(DecodeError::DuplicateField);
                    }
                    if k + 1 >= s.len() {
                        return Err(DecodeError::MalformedIdentifier);
                    }
                    match &s[k + 1] {
                        Event::Str(t) => match parse_id(t) {
                            Ok(v) => {
                                id = Some(v.0);
                                k = k + 2;
                            },
                            Err(e) => {
                                return Err(e);
                            },
                        },
                        _ => {
                            return Err(DecodeError::MalformedIdentifier);
                        },
                    }
                } else if key_is(key, "kind") {
                    if k + 1 >= s.len() {
                        return Err(DecodeError::InvalidValue);
                    }
                    match &s[k + 1] {
                        Event::Str(t) => {
                            let tag = classify_name(sc, t);
                            match select_fields(sc, &tag) {
                                Some((v, fs)) => {
                                    match read_body(sc, s, k + 2, fs, &tag, id.is_some(), cx) {
                                        Ok((vals, kids, next)) => {
                                            let n = Node {
                                                id: Id(match id { Some(x) => x, None => 0 }),
                                                kind: Category { variant: v, fields: vals },
                                                inner: kids,
                                            };
                                            return Ok((n, next));
                                        },
                                        Err(e) => {
                                            return Err(e);
                                        },
                                    }
                                },
                                None => {
                                    return Err(DecodeError::MissingCategory);
                                },
                            }
                        },
                        _ => {
                            return Err(DecodeError::InvalidValue);
                        },
                    }
                } else {
                    return Err(DecodeError::MissingCategory);
                }
            },
            _ => {
                return Err(DecodeError::MalformedDocument);
            },
        }
    }
}

/// Executes [`body`] from a node's starting values.
fn read_body(
    sc: &Schema,
    s: &Vec<Event>,
    j: usize,
    fs: &Vec<Field>,
    tag: &Tag,
    id_seen: bool,
    cx: &mut Context,
) -> (r: Result<(Vec<Value>, Vec<Node<Category>>, usize), DecodeError>)
    requires
        old(cx).wf(),
    ensures
        final(cx).wf(),
        extends(old(cx)@.files, final(cx)@.files),
        match (
            r,
            body(
                *sc,
                s@,
                j as int,
                fs@,
                initial_values(fs@, tag@),
                Seq::new(fs@.len(), |q: int| false),
                Seq::empty(),
                false,
                id_seen,
                old(cx)@,
            ),
        ) {
            (Ok((vals, kids, n)), Ok((vv, kv, nv, cv))) => values_view(vals@) == vv && nodes_view(kids@) == kv && n == nv
                && final(cx)@ == cv && j < n <= s@.len(),
            (Err(e), Err(ev)) => e == ev,
            _ => false,
        },
    decreases s@.len() - j, 1int,
{
    let ghost goal = body(
        *sc,
        s@,
        j as int,
        fs@,
        initial_values(fs@, tag@),
        Seq::new(fs@.len(), |q: int| false),
        Seq::empty(),
        false,
        id_seen,
        old(cx)@,
    );
    let (mut vals, mut seen) = initial_fields(fs, tag);
    let mut kids: Vec<Node<Category>> = Vec::new();
    assert(nodes_view(kids@) =~= Seq::<NodeV>::empty());
    let mut inner_seen = false;
    let mut k: usize = j;
    loop
        invariant
            j <= k,
            cx.wf(),
            extends(old(cx)@.files, cx@.files),
            vals@.len() == fs@.len(),
            seen@.len() == fs@.len(),
            body(*sc, s@, k as int, fs@, values_view(vals@), seen@, nodes_view(kids@), inner_seen, id_seen, cx@) == goal,
            goal == body(
                *sc,
                s@,
                j as int,
                fs@,
                initial_values(fs@, tag@),
                Seq::new(fs@.len(), |q: int| false),
                Seq::empty(),
                false,
                id_seen,
                old(cx)@,
            ),
        decreases s@.len() - k,
    {
        if k >= s.len() {
            return Err(DecodeError::MalformedDocument);
        }
        match &s[k] {
            Event::ObjectEnd => {
                return Ok((vals, kids, k + 1));
            },
            Event::Key(key) => {
                if key_is(key, "inner") {
                    if inner_seen {
                        return Err(DecodeError::DuplicateField);
                    }
                    if !is_start(s, k + 1, true) {
                        return Err(DecodeError::MalformedDocument);
                    }
                    match read_children(sc, s, k + 2, cx) {
                        Ok((c, next)) => {
                            kids = c;
                            inner_seen = true;
                            k = next;
                        },
                        Err(e) => {
                            return Err(e);
                        },
                    }
                } else if key_is(key, "kind") || (id_seen && key_is(key, "id")) {
                    return Err(DecodeError::DuplicateField);
                } else {
                    match find_field(fs, key) {
                        Some(f) => {
                            if seen[f] {
                                return Err(DecodeError::DuplicateField);
                            }
                            match read_field_value(fs[f].ty, s, k + 1, cx) {
                                Ok((v, next)) => {
                                    let ghost prev = vals@;
                                    let ghost vv = v@;
                                    vals.set(f, v);
                                    assert(values_view(vals@) =~= values_view(prev).update(f as int, vv));
                                    seen.set(f, true);
                                    k = next;
                                },
                                Err(e) => {
                                    return Err(e);
                                },
                            }
                        },
                        None => match skip_value(s, k + 1) {
                            Some(next) => {
                                k = next;
                            },
                            None => {
                                return Err(DecodeError::MalformedDocument);
                            },
                        },
                    }
                }
            },
            _ => {
                return Err(DecodeError::MalformedDocument);
            },
        }
    }
}

/// Executes [`children`] from an empty list.
fn read_children(sc: &Schema, s: &Vec<Event>, j: usize, cx: &mut Context) -> (r: Result<(Vec<Node<Category>>, usize), DecodeError>)
    requires
        old(cx).wf(),
    ensures
        final(cx).wf(),
        extends(old(cx)@.files, final(cx)@.files),
        match (r, children(*sc, s@, j as int, Seq::empty(), old(cx)@)) {
            (Ok((c, n)), Ok((cv, nv, xv))) => nodes_view(c@) == cv && n == nv && final(cx)@ == xv && j < n <= s@.len(),
            (Err(e), Err(ev)) => e == ev,
            _ => false,
        },
    decreases s@.len() - j, 1int,
{
    let ghost goal = children(*sc, s@, j as int, Seq::empty(), old(cx)@);
    let mut kids: Vec<Node<Category>> = Vec::new();
    assert(nodes_view(kids@) =~= Seq::<NodeV>::empty());
    let mut k: usize = j;
    loop
        invariant
            j <= k,
            cx.wf(),
            extends(old(cx)@.files, cx@.files),
            children(*sc, s@, k as int, nodes_view(kids@), cx@) == goal,
            goal == children(*sc, s@, j as int, Seq::empty(), old(cx)@),
        decreases s@.len() - k,
    {
        if k >= s.len() {
            return Err(DecodeError::MalformedDocument);
        }
        if let Event::ArrayEnd = &s[k] {
            return Ok((kids, k + 1));
        }
        match decode_node(sc, s, k, cx) {
            Ok((n, next)) => {
                proof {
                    lemma_nodes_view_push(kids@, n);
                }
                kids.push(n);
                k = next;
            },
            Err(e) => {
                return Err(e);
            },
        }
    }
}


proof fn lemma_reserved_keys_differ()
    ensures
        "id".spec_bytes() != "kind".spec_bytes(),
        "id".spec_bytes() != "inner".spec_bytes(),
        "kind".spec_bytes() != "inner".spec_bytes(),
{
    reveal_strlit("id");
    reveal_strlit("kind");
    reveal_strlit("inner");
    vstd::string::is_ascii_spec_bytes("id");
    vstd::string::is_ascii_spec_bytes("kind");
    vstd::string::is_ascii_spec_bytes("inner");
    assert("id".spec_bytes().len() == 2);
    assert("kind".spec_bytes().len() == 4);
}

/// Children may not come before the category: in the fields that precede
/// `kind` (after an optional `id`), an `inner` key fails with
/// `MissingCategory`. The node that starts at `i` with `inner` as its first
/// key is the plainest case.
pub proof fn lemma_inner_before_kind(sc: Schema, s: Seq<Event>, j: int, id: Option<u64>, cx: Cx)
    requires
        0 <= j < s.len(),
        s[j] is Key,
        s[j]->Key_0@ == "inner".spec_bytes(),
    ensures
        head(sc, s, j, id, cx) == Err::<(NodeV, int, Cx), DecodeError>(DecodeError::MissingCategory),
        j >= 1 && s[j - 1] is ObjectStart ==> node(sc, s, j - 1, cx) == Err::<(NodeV, int, Cx), DecodeError>(
            DecodeError::MissingCategory,
        ),
{
    lemma_reserved_keys_differ();
}

/// An object with a second `id` fails with `DuplicateField`.
pub proof fn lemma_second_id(sc: Schema, s: Seq<Event>, i: int, cx: Cx)
    requires
        0 <= i,
        i + 3 < s.len(),
        s[i] is ObjectStart,
        s[i + 1] is Key,
        s[i + 1]->Key_0@ == "id".spec_bytes(),
        s[i + 2] is Str,
        id_text_valid(s[i + 2]->Str_0@),
        s[i + 3] is Key,
        s[i + 3]->Key_0@ == "id".spec_bytes(),
    ensures
        node(sc, s, i, cx) == Err::<(NodeV, int, Cx), DecodeError>(DecodeError::DuplicateField),
{
}

/// A node whose first key is not `id` decodes, if at all, with identifier 0.
pub proof fn lemma_absent_id_is_zero(sc: Schema, s: Seq<Event>, i: int, cx: Cx)
    requires
        0 <= i,
        i + 1 < s.len(),
        !(s[i + 1] is Key && s[i + 1]->Key_0@ == "id".spec_bytes()),
        node(sc, s, i, cx) is Ok,
    ensures
        node(sc, s, i, cx)->Ok_0.0.id == 0,
{
}

proof fn lemma_field_index(fs: Seq<Field>, key: Seq<u8>, k: int)
    requires
        0 <= k,
        fs.len() <= usize::MAX,
    ensures
        field_index(fs, key, k) matches Some(f) ==> k <= f < fs.len() && fs[f as int].ty != FieldType::Kind,
    decreases fs.len() - k,
{
    if k < fs.len() {
        lemma_field_index(fs, key, k + 1);
    }
}

/// Routing the fields never touches a field that holds the category.
proof fn lemma_body_keeps_kind_fields(
    sc: Schema,
    s: Seq<Event>,
    j: int,
    fs: Seq<Field>,
    vals: Seq<ValueV>,
    seen: Seq<bool>,
    kids: Seq<NodeV>,
    inner_seen: bool,
    id_seen: bool,
    cx: Cx,
)
    requires
        body(sc, s, j, fs, vals, seen, kids, inner_seen, id_seen, cx) is Ok,
        vals.len() == fs.len(),
        fs.len() <= usize::MAX,
    ensures
        ({
            let out = body(sc, s, j, fs, vals, seen, kids, inner_seen, id_seen, cx)->Ok_0.0;
            &&& out.len() == fs.len()
            &&& forall|q: int| 0 <= q < fs.len() && fs[q].ty == FieldType::Kind ==> out[q] == vals[q]
        }),
    decreases s.len() - j,
{
    if 0 <= j < s.len() {
        if let Event::Key(k) = s[j] {
            if k@ == "inner".spec_bytes() {
                if !inner_seen && j + 1 < s.len() && s[j + 1] is ArrayStart {
                    let (c, next, cx2) = children(sc, s, j + 2, Seq::empty(), cx)->Ok_0;
                    lemma_body_keeps_kind_fields(sc, s, next, fs, vals, seen, c, true, id_seen, cx2);
                }
            } else if !(k@ == "kind".spec_bytes() || (id_seen && k@ == "id".spec_bytes())) {
                lemma_field_index(fs, k@, 0);
                match field_index(fs, k@, 0) {
                    Some(f) => {
                        let (v, next, cx2) = field_value(fs[f as int].ty, s, j + 1, cx)->Ok_0;
                        lemma_body_keeps_kind_fields(
                            sc,
                            s,
                            next,
                            fs,
                            vals.update(f as int, v),
                            seen.update(f as int, true),
                            kids,
                            inner_seen,
                            id_seen,
                            cx2,
                        );
                    },
                    None => {
                        let next = crate::event::value_end(s, j + 1, 0)->0;
                        lemma_body_keeps_kind_fields(sc, s, next, fs, vals, seen, kids, inner_seen, id_seen, cx);
                    },
                }
            }
        }
    }
}

/// A category name that no variant of a union carries goes to the fallback:
/// the node has no variant index, one value per fallback field, and each
/// field of the fallback that asks for the category holds the name exactly
/// as it stands in the document.
pub proof fn lemma_unknown_kind_to_fallback(sc: Schema, s: Seq<Event>, j: int, id: Option<u64>, cx: Cx)
    requires
        0 <= j,
        j + 1 < s.len(),
        s[j] is Key,
        s[j]->Key_0@ == "kind".spec_bytes(),
        s[j + 1] is Str,
        match sc {
            Schema::Union { variants, fallback } => variant_index(variants@, s[j + 1]->Str_0@, 0) is None
                && fallback is Some && fallback->0@.len() <= usize::MAX,
            _ => false,
        },
        head(sc, s, j, id, cx) is Ok,
    ensures
        ({
            let n = head(sc, s, j, id, cx)->Ok_0.0;
            let fb = sc->Union_fallback->0@;
            &&& n.kind.variant is None
            &&& n.kind.fields.len() == fb.len()
            &&& forall|q: int|
                0 <= q < fb.len() && fb[q].ty == FieldType::Kind ==> n.kind.fields[q] == ValueV::Kind(
                    TagV::Unknown(s[j + 1]->Str_0@),
                )
        }),
{
    lemma_reserved_keys_differ();
    let name = s[j + 1]->Str_0@;
    let tag = classify(sc, name);
    assert(tag == TagV::Unknown(name));
    let fs = sc->Union_fallback->0@;
    assert(select(sc, tag) == Some((None::<usize>, fs)));
    lemma_body_keeps_kind_fields(
        sc,
        s,
        j + 2,
        fs,
        initial_values(fs, tag),
        Seq::new(fs.len(), |q: int| false),
        Seq::empty(),
        false,
        id is Some,
        cx,
    );
}

/// A decoded document: the tree, and the table that its file handles index.
#[derive(Debug)]
pub struct Document {
    pub root: Node<Category>,
    pub files: FileTable,
}

/// Decodes a whole document under a schema. Each call has a context of its
/// own: a fresh file table and a cursor with every field unknown.
pub fn decode(sc: &Schema, s: &Vec<Event>) -> (r: Result<Document, DecodeError>)
    ensures
        match (r, document(*sc, s@)) {
            (Ok(d), Ok((nv, fv))) => node_view(d.root) == nv && d.files@ == fv && d.files.wf(),
            (Err(e), Err(ev)) => e == ev,
            _ => false,
        },
{
    let mut cx = Context::new();
    assert(cx@ == start_cx());
    match decode_node(sc, s, 0, &mut cx) {
        Ok((root, next)) => {
            if next == s.len() {
                Ok(Document { root, files: cx.files })
            } else {
                Err(DecodeError::MalformedDocument)
            }
        },
        Err(e) => Err(e),
    }
}

} // verus!
