//! The derived schemas of record and union declarations: shapes, tagging,
//! transparency and flattening.

use seamless::decl::{ApiType, BodyAttr, EnumDecl, Field, Fields, NamedField, StructDecl, VariantDecl};
use seamless::derive::api_body_info;
use seamless::schema::{ApiBodyInfo, ApiBodyType};

fn s(x: &str) -> String {
    x.to_string()
}

fn doc(x: &str) -> BodyAttr {
    BodyAttr::Doc(x.to_string())
}

fn named(name: &str, attrs: Vec<BodyAttr>, ty: ApiType) -> NamedField {
    NamedField { attrs, name: s(name), ty }
}

fn record(attrs: Vec<BodyAttr>, fields: Fields) -> ApiType {
    ApiType::Record(Box::new(StructDecl { attrs, fields }))
}

fn union(attrs: Vec<BodyAttr>, variants: Vec<VariantDecl>) -> ApiType {
    ApiType::Union(Box::new(EnumDecl { attrs, variants }))
}

fn node(desc: &str, ty: ApiBodyType) -> ApiBodyInfo {
    ApiBodyInfo { description: s(desc), ty }
}

fn object(keys: Vec<(&str, ApiBodyInfo)>) -> ApiBodyType {
    ApiBodyType::Object { keys: keys.into_iter().map(|(k, v)| (s(k), v)).collect() }
}

fn tag_node(name: &str) -> ApiBodyInfo {
    node("Variant tag", ApiBodyType::StringLiteral { literal: s(name) })
}

#[test]
fn has_struct_shape() {
    let foo = record(
        vec![doc(" Foo comment")],
        Fields::Named(vec![
            named("prop", vec![doc(" Prop comment")], ApiType::Number),
            named("another_prop", vec![doc(" Another prop comment")], ApiType::Boolean),
        ]),
    );
    let f = api_body_info(&foo).unwrap();
    assert_eq!(
        f,
        node(
            "Foo comment",
            object(vec![
                ("prop", node("Prop comment", ApiBodyType::Number)),
                ("another_prop", node("Another prop comment", ApiBodyType::Boolean)),
            ]),
        )
    );
}

fn other_decl() -> ApiType {
    record(
        vec![doc(" Other comes from here")],
        Fields::Named(vec![named("other_prop", vec![], ApiType::Boolean)]),
    )
}

#[test]
fn has_enum_shape() {
    let foo = union(
        vec![],
        vec![
            VariantDecl {
                name: s("Lark"),
                attrs: vec![doc(" Lark is larky")],
                fields: Fields::Named(vec![named("lark1", vec![doc(" Lark1")], ApiType::Text)]),
            },
            VariantDecl {
                name: s("Other"),
                attrs: vec![doc(" Other is different")],
                fields: Fields::Single(Field { attrs: vec![], ty: other_decl() }),
            },
            VariantDecl {
                name: s("AnotherOther"),
                attrs: vec![],
                fields: Fields::Single(Field { attrs: vec![], ty: other_decl() }),
            },
            VariantDecl { name: s("Bar"), attrs: vec![doc(" Bar is empty")], fields: Fields::Named(vec![]) },
        ],
    );
    let f = api_body_info(&foo).unwrap();
    assert_eq!(
        f,
        node(
            "",
            ApiBodyType::OneOf {
                values: vec![
                    // a variant with named fields puts the tag first
                    node(
                        "Lark is larky",
                        object(vec![
                            ("kind", tag_node("Lark")),
                            ("lark1", node("Lark1", ApiBodyType::String)),
                        ]),
                    ),
                    // a variant wrapping a record appends the tag to its keys
                    node(
                        "Other is different",
                        object(vec![
                            ("other_prop", node("", ApiBodyType::Boolean)),
                            ("kind", tag_node("Other")),
                        ]),
                    ),
                    // an undocumented variant falls back to the record's text
                    node(
                        "Other comes from here",
                        object(vec![
                            ("other_prop", node("", ApiBodyType::Boolean)),
                            ("kind", tag_node("AnotherOther")),
                        ]),
                    ),
                    node("Bar is empty", object(vec![("kind", tag_node("Bar"))])),
                ],
            },
        )
    );
}

#[test]
fn has_enum_shape_unit() {
    let foo = union(
        vec![doc(" Foo help")],
        vec![
            VariantDecl { name: s("A"), attrs: vec![doc(" A help")], fields: Fields::Unit },
            VariantDecl { name: s("B"), attrs: vec![doc(" B help")], fields: Fields::Unit },
            VariantDecl { name: s("C"), attrs: vec![], fields: Fields::Unit },
        ],
    );
    let f = api_body_info(&foo).unwrap();
    assert_eq!(
        f,
        node(
            "Foo help",
            ApiBodyType::OneOf {
                values: vec![
                    node("A help", ApiBodyType::StringLiteral { literal: s("A") }),
                    node("B help", ApiBodyType::StringLiteral { literal: s("B") }),
                    node("", ApiBodyType::StringLiteral { literal: s("C") }),
                ],
            },
        )
    );
}

fn foo3(docs: Vec<BodyAttr>) -> ApiType {
    record(
        docs,
        Fields::Named(vec![named("hi", vec![doc(" Hi!")], ApiType::Number)]),
    )
}

#[test]
fn delegates_to_inner() {
    // transparent wrappers hand the innermost record's schema through
    let foo = record(
        vec![],
        Fields::Single(Field {
            attrs: vec![],
            ty: record(
                vec![],
                Fields::Single(Field { attrs: vec![], ty: foo3(vec![doc(" Foo3 docs")]) }),
            ),
        }),
    );
    let f = api_body_info(&foo).unwrap();
    assert_eq!(
        f,
        node("Foo3 docs", object(vec![("hi", node("Hi!", ApiBodyType::Number))]))
    );
}

#[test]
fn delegates_to_inner2() {
    // a documented middle wrapper overrides the inner description
    let foo = record(
        vec![],
        Fields::Single(Field {
            attrs: vec![],
            ty: record(
                vec![doc(" Foo2 docs")],
                Fields::Single(Field { attrs: vec![], ty: foo3(vec![]) }),
            ),
        }),
    );
    let f = api_body_info(&foo).unwrap();
    assert_eq!(
        f,
        node("Foo2 docs", object(vec![("hi", node("Hi!", ApiBodyType::Number))]))
    );
}

#[test]
fn delegates_to_inner3() {
    // the outermost documentation wins
    let foo = record(
        vec![doc(" Foo docs")],
        Fields::Single(Field {
            attrs: vec![],
            ty: record(
                vec![],
                Fields::Single(Field { attrs: vec![], ty: foo3(vec![]) }),
            ),
        }),
    );
    let f = api_body_info(&foo).unwrap();
    assert_eq!(
        f,
        node("Foo docs", object(vec![("hi", node("Hi!", ApiBodyType::Number))]))
    );
}

#[test]
fn flattens() {
    let bar = record(
        vec![],
        Fields::Named(vec![
            named("there", vec![doc(" There docs")], ApiType::Boolean),
            named("world", vec![doc(" World docs")], ApiType::Text),
        ]),
    );
    let foo = record(
        vec![],
        Fields::Named(vec![
            named("hello", vec![doc(" Hello docs")], ApiType::Number),
            named("another", vec![BodyAttr::Flatten], bar),
        ]),
    );
    let f = api_body_info(&foo).unwrap();
    assert_eq!(
        f,
        node(
            "",
            object(vec![
                ("hello", node("Hello docs", ApiBodyType::Number)),
                ("there", node("There docs", ApiBodyType::Boolean)),
                ("world", node("World docs", ApiBodyType::String)),
            ]),
        )
    );
}
