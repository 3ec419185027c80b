use clang_ast::error::DecodeError;
use clang_ast::event::Event;
use clang_ast::id::{parse_id, Id};
use clang_ast::schema::{Field, FieldType, Schema, Tag, Value, Variant};
use clang_ast::tree::{decode, Document};

fn key(s: &str) -> Event {
    Event::Key(s.as_bytes().to_vec())
}

fn text(s: &str) -> Event {
    Event::Str(s.as_bytes().to_vec())
}

fn field(name: &str, ty: FieldType) -> Field {
    Field { name: name.as_bytes().to_vec(), ty }
}

fn variant(name: &str, fields: Vec<Field>) -> Variant {
    Variant { name: name.as_bytes().to_vec(), fields }
}

fn decl_schema() -> Schema {
    Schema::Union {
        variants: vec![
            variant("TranslationUnitDecl", vec![]),
            variant("CXXRecordDecl", vec![field("name", FieldType::Str)]),
        ],
        fallback: Some(vec![]),
    }
}

fn loc_schema() -> Schema {
    Schema::Record { fields: vec![field("kind", FieldType::Kind), field("loc", FieldType::Loc)] }
}

fn id_of(t: &str) -> Result<Id, DecodeError> {
    parse_id(&t.as_bytes().to_vec())
}

fn file_text(d: &Document, h: usize) -> String {
    String::from_utf8(d.files.get(h).clone()).unwrap()
}

fn loc_file(v: &Value) -> Option<usize> {
    match v {
        Value::Loc(l) => l.file,
        _ => panic!("not a location"),
    }
}

fn loc_obj(fields: Vec<Event>) -> Vec<Event> {
    let mut v = vec![Event::ObjectStart];
    v.extend(fields);
    v.push(Event::ObjectEnd);
    v
}

/// `{"kind":"X","loc":<loc>}`
fn node_with_loc(kind: &str, loc: Vec<Event>) -> Vec<Event> {
    let mut v = vec![Event::ObjectStart, key("kind"), text(kind), key("loc")];
    v.extend(loc);
    v.push(Event::ObjectEnd);
    v
}

fn root_with_children(children: Vec<Vec<Event>>) -> Vec<Event> {
    let mut v = vec![Event::ObjectStart, key("kind"), text("TranslationUnitDecl"), key("inner"), Event::ArrayStart];
    for c in children {
        v.extend(c);
    }
    v.push(Event::ArrayEnd);
    v.push(Event::ObjectEnd);
    v
}

#[test]
fn id_hex_round_trip() {
    for x in [0u64, 1, 9, 10, 15, 16, 255, 0xadf3a8, 0x1fcea38, u64::MAX] {
        let lower = format!("{:x}", x);
        let upper = format!("{:X}", x);
        assert_eq!(id_of(&lower), Ok(Id(x)));
        assert_eq!(id_of(&upper), Ok(Id(x)));
        assert_eq!(id_of(&format!("0x{}", lower)), Ok(Id(x)));
        assert_eq!(id_of(&format!("0X{}", upper)), Ok(Id(x)));
    }
}

#[test]
fn id_rejects_malformed_text() {
    assert_eq!(id_of(""), Err(DecodeError::MalformedIdentifier));
    assert_eq!(id_of("0x"), Err(DecodeError::MalformedIdentifier));
    assert_eq!(id_of("0xg1"), Err(DecodeError::MalformedIdentifier));
    assert_eq!(id_of("12 "), Err(DecodeError::MalformedIdentifier));
    assert_eq!(id_of("10000000000000000"), Err(DecodeError::MalformedIdentifier));
    assert_eq!(id_of("0x0000000000000000001"), Ok(Id(1)));
}

#[test]
fn decodes_translation_unit_with_record_child() {
    let s = vec![
        Event::ObjectStart,
        key("id"),
        text("0x1"),
        key("kind"),
        text("TranslationUnitDecl"),
        key("inner"),
        Event::ArrayStart,
        Event::ObjectStart,
        key("id"),
        text("0x2"),
        key("kind"),
        text("CXXRecordDecl"),
        key("name"),
        text("S"),
        Event::ObjectEnd,
        Event::ArrayEnd,
        Event::ObjectEnd,
    ];
    let d = decode(&decl_schema(), &s).unwrap();
    assert_eq!(d.root.id, Id(1));
    assert_eq!(d.root.kind.variant, Some(0));
    assert!(d.root.kind.fields.is_empty());
    assert_eq!(d.root.inner.len(), 1);
    let child = &d.root.inner[0];
    assert_eq!(child.id, Id(2));
    assert_eq!(child.kind.variant, Some(1));
    assert!(matches!(&child.kind.fields[0], Value::Str(t) if t == b"S"));
    assert!(child.inner.is_empty());
}

#[test]
fn unknown_kind_goes_to_fallback_with_raw_name() {
    let sc = Schema::Union {
        variants: vec![variant("NamespaceDecl", vec![])],
        fallback: Some(vec![field("kind", FieldType::Kind)]),
    };
    let s = vec![Event::ObjectStart, key("kind"), text("EnumDecl"), key("name"), text("E"), Event::ObjectEnd];
    let d = decode(&sc, &s).unwrap();
    assert_eq!(d.root.kind.variant, None);
    assert!(matches!(&d.root.kind.fields[0], Value::Kind(Tag::Unknown(t)) if t == b"EnumDecl"));
}

#[test]
fn unknown_kind_without_fallback_is_missing_category() {
    let sc = Schema::Union { variants: vec![variant("NamespaceDecl", vec![])], fallback: None };
    let s = vec![Event::ObjectStart, key("kind"), text("EnumDecl"), Event::ObjectEnd];
    assert_eq!(decode(&sc, &s).unwrap_err(), DecodeError::MissingCategory);
}

#[test]
fn record_schema_receives_kind_of_every_node() {
    let sc = Schema::Record { fields: vec![field("kind", FieldType::Kind), field("name", FieldType::Str)] };
    let s = vec![Event::ObjectStart, key("kind"), text("NamespaceDecl"), key("name"), text("std"), Event::ObjectEnd];
    let d = decode(&sc, &s).unwrap();
    assert!(matches!(&d.root.kind.fields[0], Value::Kind(Tag::Unknown(t)) if t == b"NamespaceDecl"));
    assert!(matches!(&d.root.kind.fields[1], Value::Str(t) if t == b"std"));
}

#[test]
fn sibling_loc_inherits_file() {
    let first = node_with_loc(
        "VarDecl",
        loc_obj(vec![key("offset"), Event::Num(6), key("file"), text("source.cc"), key("line"), Event::Num(1), key("col"), Event::Num(7)]),
    );
    let second = node_with_loc("VarDecl", loc_obj(vec![key("offset"), Event::Num(20), key("col"), Event::Num(3)]));
    let s = root_with_children(vec![first, second]);
    let d = decode(&loc_schema(), &s).unwrap();
    let a = loc_file(&d.root.inner[0].kind.fields[1]).unwrap();
    let b = loc_file(&d.root.inner[1].kind.fields[1]).unwrap();
    assert_eq!(a, b);
    assert_eq!(file_text(&d, b), "source.cc");
    match &d.root.inner[1].kind.fields[1] {
        Value::Loc(l) => {
            assert_eq!(l.offset, Some(20));
            assert_eq!(l.line, Some(1));
            assert_eq!(l.col, Some(3));
            assert_eq!(l.tok_len, None);
        },
        _ => panic!("not a location"),
    }
}

#[test]
fn equal_file_names_share_a_handle() {
    let c1 = node_with_loc("A", loc_obj(vec![key("file"), text("a.h")]));
    let c2 = node_with_loc("B", loc_obj(vec![key("file"), text("b.h")]));
    let c3 = node_with_loc("C", loc_obj(vec![key("file"), text("a.h")]));
    let s = root_with_children(vec![c1, c2, c3]);
    let d = decode(&loc_schema(), &s).unwrap();
    let h1 = loc_file(&d.root.inner[0].kind.fields[1]).unwrap();
    let h2 = loc_file(&d.root.inner[1].kind.fields[1]).unwrap();
    let h3 = loc_file(&d.root.inner[2].kind.fields[1]).unwrap();
    assert_eq!(h1, h3);
    assert_ne!(h1, h2);
    assert_eq!(d.files.len(), 2);
    // A second decode has a table of its own.
    let s2 = root_with_children(vec![node_with_loc("D", loc_obj(vec![key("file"), text("b.h")]))]);
    let d2 = decode(&loc_schema(), &s2).unwrap();
    assert_eq!(d2.files.len(), 1);
    assert_eq!(loc_file(&d2.root.inner[0].kind.fields[1]), Some(0));
    assert_eq!(file_text(&d2, 0), "b.h");
}

#[test]
fn inner_before_kind_is_missing_category() {
    let s = vec![Event::ObjectStart, key("id"), text("0x5"), key("inner"), Event::ArrayStart, Event::ArrayEnd, Event::ObjectEnd];
    assert_eq!(decode(&decl_schema(), &s).unwrap_err(), DecodeError::MissingCategory);
    let s = vec![Event::ObjectStart, key("name"), text("x"), key("kind"), text("A"), Event::ObjectEnd];
    assert_eq!(decode(&decl_schema(), &s).unwrap_err(), DecodeError::MissingCategory);
}

#[test]
fn second_id_is_duplicate_field() {
    let s = vec![Event::ObjectStart, key("id"), text("0x5"), key("id"), text("0x6"), key("kind"), text("A"), Event::ObjectEnd];
    assert_eq!(decode(&decl_schema(), &s).unwrap_err(), DecodeError::DuplicateField);
    let s = vec![Event::ObjectStart, key("kind"), text("A"), key("kind"), text("B"), Event::ObjectEnd];
    assert_eq!(decode(&decl_schema(), &s).unwrap_err(), DecodeError::DuplicateField);
}

#[test]
fn absent_id_is_zero() {
    let s = vec![Event::ObjectStart, key("kind"), text("TranslationUnitDecl"), Event::ObjectEnd];
    let d = decode(&decl_schema(), &s).unwrap();
    assert_eq!(d.root.id, Id(0));
}

#[test]
fn empty_object_has_null_tag() {
    let sc = Schema::Record { fields: vec![field("kind", FieldType::Kind)] };
    let s = vec![Event::ObjectStart, Event::ObjectEnd];
    let d = decode(&sc, &s).unwrap();
    assert!(matches!(&d.root.kind.fields[0], Value::Kind(Tag::Null)));
    assert_eq!(d.root.id, Id(0));
}

#[test]
fn malformed_identifier_in_document() {
    let s = vec![Event::ObjectStart, key("id"), text("0xzz"), key("kind"), text("A"), Event::ObjectEnd];
    assert_eq!(decode(&decl_schema(), &s).unwrap_err(), DecodeError::MalformedIdentifier);
}

#[test]
fn malformed_location_field() {
    let s = node_with_loc("A", loc_obj(vec![key("offset"), text("six")]));
    assert_eq!(decode(&loc_schema(), &s).unwrap_err(), DecodeError::MalformedLocation);
    let s = node_with_loc("A", loc_obj(vec![key("line"), Event::Num(1u64 << 40)]));
    assert_eq!(decode(&loc_schema(), &s).unwrap_err(), DecodeError::MalformedLocation);
}

#[test]
fn wrong_shape_of_declared_field() {
    let s = vec![Event::ObjectStart, key("kind"), text("CXXRecordDecl"), key("name"), Event::Num(3), Event::ObjectEnd];
    assert_eq!(decode(&decl_schema(), &s).unwrap_err(), DecodeError::InvalidValue);
}

#[test]
fn duplicate_declared_field() {
    let s = vec![
        Event::ObjectStart,
        key("kind"),
        text("CXXRecordDecl"),
        key("name"),
        text("S"),
        key("name"),
        text("T"),
        Event::ObjectEnd,
    ];
    assert_eq!(decode(&decl_schema(), &s).unwrap_err(), DecodeError::DuplicateField);
}

#[test]
fn truncated_document_is_malformed() {
    let s = vec![Event::ObjectStart, key("kind"), text("A")];
    assert_eq!(decode(&decl_schema(), &s).unwrap_err(), DecodeError::MalformedDocument);
    let s = vec![Event::ObjectStart, key("kind"), text("A"), Event::ObjectEnd, Event::Null];
    assert_eq!(decode(&decl_schema(), &s).unwrap_err(), DecodeError::MalformedDocument);
}

#[test]
fn unrequested_fields_are_skipped() {
    let s = vec![
        Event::ObjectStart,
        key("kind"),
        text("CXXRecordDecl"),
        key("type"),
        Event::ObjectStart,
        key("qualType"),
        text("int"),
        key("list"),
        Event::ArrayStart,
        Event::Num(1),
        Event::OtherScalar,
        Event::ArrayEnd,
        Event::ObjectEnd,
        key("isImplicit"),
        Event::Bool(true),
        key("name"),
        text("S"),
        Event::ObjectEnd,
    ];
    let d = decode(&decl_schema(), &s).unwrap();
    assert!(matches!(&d.root.kind.fields[0], Value::Str(t) if t == b"S"));
}

#[test]
fn range_ends_follow_the_cursor_and_include_chain() {
    let sc = Schema::Record { fields: vec![field("loc", FieldType::Loc), field("range", FieldType::Range)] };
    let mut s = vec![Event::ObjectStart, key("kind"), text("NamespaceDecl"), key("loc")];
    s.extend(loc_obj(vec![
        key("offset"),
        Event::Num(7004),
        key("file"),
        text("c++config.h"),
        key("line"),
        Event::Num(258),
        key("includedFrom"),
        Event::ObjectStart,
        key("file"),
        text("utility"),
        Event::ObjectEnd,
    ]));
    s.push(key("range"));
    s.push(Event::ObjectStart);
    s.push(key("begin"));
    s.extend(loc_obj(vec![key("offset"), Event::Num(6994)]));
    s.push(key("end"));
    s.extend(loc_obj(vec![key("offset"), Event::Num(7155), key("line"), Event::Num(266)]));
    s.push(Event::ObjectEnd);
    s.push(Event::ObjectEnd);
    let d = decode(&sc, &s).unwrap();
    match (&d.root.kind.fields[0], &d.root.kind.fields[1]) {
        (Value::Loc(l), Value::Range(g)) => {
            assert_eq!(l.included_from, vec![Some(1)]);
            assert_eq!(file_text(&d, 1), "utility");
            assert_eq!(g.begin.offset, Some(6994));
            assert_eq!(g.begin.line, Some(258));
            assert_eq!(g.begin.file, l.file);
            assert_eq!(g.begin.included_from, vec![Some(1)]);
            assert_eq!(g.end.offset, Some(7155));
            assert_eq!(g.end.line, Some(266));
        },
        _ => panic!("wrong values"),
    }
}


#[test]
fn range_without_end_is_malformed_location() {
    let sc = Schema::Record { fields: vec![field("range", FieldType::Range)] };
    let mut s = vec![Event::ObjectStart, key("kind"), text("A"), key("range"), Event::ObjectStart, key("begin")];
    s.extend(loc_obj(vec![key("offset"), Event::Num(1)]));
    s.push(Event::ObjectEnd);
    s.push(Event::ObjectEnd);
    assert_eq!(decode(&sc, &s).unwrap_err(), DecodeError::MalformedLocation);
}

#[test]
fn nested_include_chain_is_innermost_first() {
    let loc = loc_obj(vec![
        key("file"),
        text("inner.h"),
        key("includedFrom"),
        Event::ObjectStart,
        key("file"),
        text("middle.h"),
        key("includedFrom"),
        Event::ObjectStart,
        key("file"),
        text("main.cc"),
        Event::ObjectEnd,
        Event::ObjectEnd,
    ]);
    let s = node_with_loc("A", loc);
    let d = decode(&loc_schema(), &s).unwrap();
    match &d.root.kind.fields[1] {
        Value::Loc(l) => {
            assert_eq!(l.file, Some(0));
            assert_eq!(l.included_from, vec![Some(1), Some(2)]);
            assert_eq!(file_text(&d, 2), "main.cc");
        },
        _ => panic!("not a location"),
    }
}
