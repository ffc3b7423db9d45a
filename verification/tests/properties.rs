//! The library's behavioural properties on concrete values: schema and wire
//! agree, derivation is stable, routing honors the base path, the pipeline
//! short-circuits, and malformed declarations are rejected.

use seamless::decl::{
    ApiType, BodyAttr, DeriveError, EnumDecl, Field, Fields, NamedField, StructDecl, VariantDecl,
};
use seamless::derive::api_body_info;
use seamless::error::ApiError;
use seamless::handler::{
    Capped, HandlerOutcome, Method, PipelineState, check_content_type, on_handler_result,
    on_param_result, pipeline_start, reify_optional, reify_result, resolve_handler_with_body,
    resolve_handler_without_body,
};
use seamless::json::{JsonValue, validate};
use seamless::router::{Api, RouteBuilder, RouteError};
use seamless::schema::ApiBodyType;
use seamless::value::{ApiValue, DeserializeError, deserialize_value, serialize_value};

fn s(x: &str) -> String {
    x.to_string()
}

fn named(name: &str, ty: ApiType) -> NamedField {
    NamedField { attrs: vec![], name: s(name), ty }
}

fn record(fields: Vec<NamedField>) -> ApiType {
    ApiType::Record(Box::new(StructDecl { attrs: vec![], fields: Fields::Named(fields) }))
}

fn unit_union(names: &[&str]) -> ApiType {
    ApiType::Union(Box::new(EnumDecl {
        attrs: vec![],
        variants: names
            .iter()
            .map(|n| VariantDecl { name: s(n), attrs: vec![], fields: Fields::Unit })
            .collect(),
    }))
}

/// The flatten example: `Foo { hello: Number, flatten bar: Bar }` with
/// `Bar { there: Boolean, world: String }`.
fn flatten_decl() -> ApiType {
    let bar = record(vec![named("there", ApiType::Boolean), named("world", ApiType::Text)]);
    ApiType::Record(Box::new(StructDecl {
        attrs: vec![],
        fields: Fields::Named(vec![
            named("hello", ApiType::Number),
            NamedField { attrs: vec![BodyAttr::Flatten], name: s("bar"), ty: bar },
        ]),
    }))
}

fn flatten_value() -> ApiValue {
    ApiValue::Rec(vec![
        ApiValue::Num(10),
        ApiValue::Rec(vec![ApiValue::Bool(true), ApiValue::Str(s("w"))]),
    ])
}

#[test]
fn schema_wire_isomorphism_on_a_flattened_record() {
    let decl = flatten_decl();
    let schema = api_body_info(&decl).unwrap();
    let wire = serialize_value(&decl, &flatten_value()).unwrap();
    assert_eq!(
        wire,
        JsonValue::Object(vec![
            (s("hello"), JsonValue::Number(10)),
            (s("there"), JsonValue::Bool(true)),
            (s("world"), JsonValue::String(s("w"))),
        ])
    );
    assert!(validate(&wire, &schema));
}

#[test]
fn schema_wire_isomorphism_on_a_union() {
    let decl = ApiType::Union(Box::new(EnumDecl {
        attrs: vec![],
        variants: vec![VariantDecl {
            name: s("Lark"),
            attrs: vec![],
            fields: Fields::Named(vec![named("hello", ApiType::Text)]),
        }],
    }));
    let schema = api_body_info(&decl).unwrap();
    let wire = serialize_value(&decl, &ApiValue::Var(0, vec![ApiValue::Str(s("hi"))])).unwrap();
    assert!(validate(&wire, &schema));
}

#[test]
fn derivation_is_idempotent() {
    let decl = flatten_decl();
    let once = api_body_info(&decl).unwrap();
    let twice = api_body_info(&decl).unwrap();
    assert_eq!(once, twice);

    let union_decl = unit_union(&["A", "B", "C"]);
    assert_eq!(api_body_info(&union_decl).unwrap(), api_body_info(&union_decl).unwrap());
}

#[test]
fn all_unit_union_serializes_to_its_variant_name() {
    let decl = unit_union(&["A", "B", "C"]);
    let wire = serialize_value(&decl, &ApiValue::Var(0, vec![])).unwrap();
    assert_eq!(wire, JsonValue::String(s("A")));

    let schema = api_body_info(&decl).unwrap();
    assert_eq!(
        schema.ty,
        ApiBodyType::OneOf {
            values: vec![
                seamless::schema::ApiBodyInfo {
                    description: String::new(),
                    ty: ApiBodyType::StringLiteral { literal: s("A") },
                },
                seamless::schema::ApiBodyInfo {
                    description: String::new(),
                    ty: ApiBodyType::StringLiteral { literal: s("B") },
                },
                seamless::schema::ApiBodyInfo {
                    description: String::new(),
                    ty: ApiBodyType::StringLiteral { literal: s("C") },
                },
            ],
        }
    );
    assert!(validate(&wire, &schema));
}

#[test]
fn tagged_variant_serializes_with_its_tag() {
    // tag key "kind" by default; the tag comes first for named fields
    let decl = ApiType::Union(Box::new(EnumDecl {
        attrs: vec![],
        variants: vec![VariantDecl {
            name: s("Lark"),
            attrs: vec![],
            fields: Fields::Named(vec![named("hello", ApiType::Text)]),
        }],
    }));
    let wire = serialize_value(&decl, &ApiValue::Var(0, vec![ApiValue::Str(s("hi"))])).unwrap();
    assert_eq!(
        wire,
        JsonValue::Object(vec![
            (s("kind"), JsonValue::String(s("Lark"))),
            (s("hello"), JsonValue::String(s("hi"))),
        ])
    );
    assert!(validate(&wire, &api_body_info(&decl).unwrap()));
}

#[test]
fn pipeline_short_circuits_on_the_first_failure() {
    let handler = resolve_handler_with_body(2, &ApiType::Text, &ApiType::Text).unwrap();
    let mut extractor_runs = 0;
    let mut handler_runs = 0;

    let mut st = pipeline_start(&handler);
    // first extractor runs and fails
    extractor_runs += 1;
    st = on_param_result(&handler, st, Err(ApiError::not_authorized("nope")));
    // the pipeline is already done: the second extractor and the handler
    // never run
    match st {
        PipelineState::Done(Err(e)) => {
            assert_eq!(e.code, 403);
        },
        _ => panic!("pipeline must be done after a failed extractor"),
    }
    assert_eq!(extractor_runs, 1);
    assert_eq!(handler_runs, 0);
    let _ = &mut handler_runs;
}

#[test]
fn pipeline_runs_through_on_success() {
    let handler = resolve_handler_with_body(1, &ApiType::Text, &ApiType::Text).unwrap();
    let st = pipeline_start(&handler);
    let st = on_param_result(&handler, st, Ok(()));
    assert!(matches!(st, PipelineState::AwaitBody));
    let st = seamless::handler::on_body_result(&handler, st, Ok(()));
    assert!(matches!(st, PipelineState::AwaitHandler));
    let st = on_handler_result(&handler, st, HandlerOutcome::Success(vec![123, 125]));
    match st {
        PipelineState::Done(Ok(resp)) => {
            assert_eq!(resp.content_type, s("application/json"));
            assert_eq!(resp.body, vec![123, 125]);
        },
        _ => panic!("pipeline must succeed"),
    }
}

#[test]
fn absent_optional_maps_to_not_found() {
    let handler = resolve_handler_without_body(0, &ApiType::Text).unwrap();
    let st = pipeline_start(&handler);
    assert!(matches!(st, PipelineState::AwaitHandler));
    let st = on_handler_result(&handler, st, HandlerOutcome::Absent);
    match st {
        PipelineState::Done(Err(e)) => assert_eq!(e.code, 404),
        _ => panic!("absence must become a not-found error"),
    }
}

#[test]
fn base_path_routing() {
    let mut api = Api::new_with_base_path(s("/api"));
    let handler = resolve_handler_without_body(0, &ApiType::Text).unwrap();
    api.add(RouteBuilder::new(s("echo")).description(s("echoes")), handler);

    assert!(api.handle(Method::Get, "/api/echo").is_ok());
    match api.handle(Method::Get, "/other/echo") {
        Err(RouteError::NotFound) => {},
        _ => panic!("a mismatched base path must not match"),
    }
    // the method is part of the key
    assert!(api.handle(Method::Post, "/api/echo").is_err());
}

#[test]
fn re_registration_overwrites() {
    let mut api = Api::new();
    let h1 = resolve_handler_without_body(0, &ApiType::Text).unwrap();
    let h2 = resolve_handler_without_body(3, &ApiType::Text).unwrap();
    api.add(RouteBuilder::new(s("/echo/")).description(s("first")), h1);
    api.add(RouteBuilder::new(s("echo")).description(s("second")), h2);
    let route = api.handle(Method::Get, "echo").unwrap();
    assert_eq!(route.description, s("second"));
    assert_eq!(route.resolved_handler.n_params, 3);
    assert_eq!(api.info().len(), 1);
}

#[test]
fn info_is_sorted_by_path() {
    let mut api = Api::new();
    let mk = || resolve_handler_without_body(0, &ApiType::Text).unwrap();
    api.add(RouteBuilder::new(s("zebra")), mk());
    api.add(RouteBuilder::new(s("alpha")), mk());
    api.add(RouteBuilder::new(s("middle")), mk());
    let infos = api.info();
    let names: Vec<String> = infos.iter().map(|i| i.name.clone()).collect();
    assert_eq!(names, vec![s("alpha"), s("middle"), s("zebra")]);
}

#[test]
fn mixed_union_is_rejected_at_registration() {
    let decl = ApiType::Union(Box::new(EnumDecl {
        attrs: vec![],
        variants: vec![
            VariantDecl { name: s("A"), attrs: vec![], fields: Fields::Unit },
            VariantDecl {
                name: s("B"),
                attrs: vec![],
                fields: Fields::Named(vec![named("x", ApiType::Number)]),
            },
        ],
    }));
    assert_eq!(api_body_info(&decl), Err(DeriveError::MixedUnitAndNamedVariants));
}

#[test]
fn tuple_variants_are_rejected() {
    let decl = ApiType::Union(Box::new(EnumDecl {
        attrs: vec![],
        variants: vec![VariantDecl {
            name: s("A"),
            attrs: vec![],
            fields: Fields::Unnamed(vec![
                Field { attrs: vec![], ty: ApiType::Number },
                Field { attrs: vec![], ty: ApiType::Number },
            ]),
        }],
    }));
    assert_eq!(api_body_info(&decl), Err(DeriveError::TupleVariantNotAllowed));
}

#[test]
fn unit_structs_are_rejected() {
    let decl = ApiType::Record(Box::new(StructDecl { attrs: vec![], fields: Fields::Unit }));
    assert_eq!(api_body_info(&decl), Err(DeriveError::UnitStructNotSupported));
}

#[test]
fn serde_attributes_are_rejected() {
    let decl = ApiType::Record(Box::new(StructDecl {
        attrs: vec![BodyAttr::Serde],
        fields: Fields::Named(vec![named("x", ApiType::Number)]),
    }));
    assert_eq!(api_body_info(&decl), Err(DeriveError::SerdeAttributeNotAllowed));
}

#[test]
fn error_classification() {
    // a type marked internal with code 401 rendering "bad"
    let attrs = vec![
        seamless::error_attrs::ErrorAttr::Internal,
        seamless::error_attrs::ErrorAttr::Code(401),
    ];
    let parsed = seamless::error_attrs::ApiErrorAttrs::parse(&attrs).unwrap();
    let finalised = parsed.finalise().unwrap();
    let e = seamless::error_attrs::into_api_error(&finalised, s("bad"), None);
    assert_eq!(
        e,
        ApiError {
            code: 401,
            internal_message: s("bad"),
            external_message: s("Internal server error"),
            value: None,
        }
    );
}

#[test]
fn capped_reader_ok_with_no_bytes() {
    let mut capped = Capped::new(5);
    assert!(capped.note_read(0).is_ok());
    assert_eq!(capped.bytes_read, 0);
}

#[test]
fn capped_reader_errors_if_limit_exceeded() {
    let mut capped = Capped::new(5);
    assert!(capped.note_read(4).is_ok());
    // the failure surfaces on the read that crosses the limit, mid-stream
    let err = capped.note_read(2).unwrap_err();
    assert_eq!(err.code, 400);
    assert_eq!(err.internal_message, s("Size limit exceeded"));
}

#[test]
fn capped_reader_ok_if_limit_not_exceeded() {
    let mut capped = Capped::new(5);
    assert!(capped.note_read(3).is_ok());
    assert!(capped.note_read(2).is_ok());
    assert_eq!(capped.bytes_read, 5);
}

#[test]
fn content_type_must_be_json() {
    let good = vec![(s("Content-Type"), s("Application/JSON"))];
    assert!(check_content_type(&good).is_ok());

    let wrong = vec![(s("content-type"), s("text/plain"))];
    let e = check_content_type(&wrong).unwrap_err();
    assert_eq!(e.code, 415);
    assert_eq!(e.external_message, s("Content-Type must be application/json"));

    let missing: Vec<(String, String)> = vec![];
    assert_eq!(check_content_type(&missing).unwrap_err().code, 415);
}

#[test]
fn method_names() {
    assert_eq!(Method::from_name("GET"), Method::Get);
    assert_eq!(Method::from_name("POST"), Method::Post);
    assert_eq!(Method::from_name("PUT"), Method::Unknown);
}

#[test]
fn serialization_refuses_a_mistyped_value() {
    let decl = ApiType::Number;
    assert!(serialize_value(&decl, &ApiValue::Str(s("nope"))).is_err());
}

#[test]
fn validation_refuses_a_wrong_shape() {
    let decl = flatten_decl();
    let schema = api_body_info(&decl).unwrap();
    let missing_key = JsonValue::Object(vec![(s("hello"), JsonValue::Number(10))]);
    assert!(!validate(&missing_key, &schema));
    let stray_key = JsonValue::Object(vec![
        (s("hello"), JsonValue::Number(10)),
        (s("there"), JsonValue::Bool(true)),
        (s("world"), JsonValue::String(s("w"))),
        (s("extra"), JsonValue::Null),
    ]);
    assert!(!validate(&stray_key, &schema));
}

#[test]
fn optionals_may_be_null_or_absent() {
    let decl = record(vec![named("maybe", ApiType::Optional(Box::new(ApiType::Number)))]);
    let schema = api_body_info(&decl).unwrap();
    // an absent optional serializes as null and still validates
    let wire = serialize_value(&decl, &ApiValue::Rec(vec![ApiValue::Absent])).unwrap();
    assert_eq!(wire, JsonValue::Object(vec![(s("maybe"), JsonValue::Null)]));
    assert!(validate(&wire, &schema));
    // a wholly absent key validates too
    assert!(validate(&JsonValue::Object(vec![]), &schema));
}

#[test]
fn flattened_record_round_trips() {
    let decl = flatten_decl();
    let wire = serialize_value(&decl, &flatten_value()).unwrap();
    // decoding the wire form reconstructs the identical value
    assert_eq!(deserialize_value(&decl, &wire), Ok(flatten_value()));
}

#[test]
fn tagged_variant_round_trips() {
    let decl = ApiType::Union(Box::new(EnumDecl {
        attrs: vec![],
        variants: vec![VariantDecl {
            name: s("Lark"),
            attrs: vec![],
            fields: Fields::Named(vec![named("hello", ApiType::Text)]),
        }],
    }));
    let value = ApiValue::Var(0, vec![ApiValue::Str(s("hi"))]);
    let wire = serialize_value(&decl, &value).unwrap();
    assert_eq!(deserialize_value(&decl, &wire), Ok(value));
}

#[test]
fn unit_union_round_trips() {
    let decl = unit_union(&["A", "B", "C"]);
    let value = ApiValue::Var(1, vec![]);
    let wire = serialize_value(&decl, &value).unwrap();
    assert_eq!(wire, JsonValue::String(s("B")));
    assert_eq!(deserialize_value(&decl, &wire), Ok(value));
}

#[test]
fn unknown_variant_is_refused() {
    let decl = unit_union(&["A", "B"]);
    assert_eq!(
        deserialize_value(&decl, &JsonValue::String(s("C"))),
        Err(DeserializeError::UnknownVariant)
    );
}

#[test]
fn mistyped_wire_is_refused() {
    assert_eq!(
        deserialize_value(&ApiType::Number, &JsonValue::String(s("ten"))),
        Err(DeserializeError::ShapeMismatch)
    );
}

#[test]
fn documentation_lines_are_trimmed_and_joined() {
    let attrs = vec![
        BodyAttr::Doc(" first line".to_string()),
        BodyAttr::Doc(" second line".to_string()),
    ];
    let props = seamless::decl::parse(&attrs).unwrap();
    assert_eq!(props.docs, "first line\nsecond line".to_string());
    assert!(!props.flatten);
    assert!(props.tag.is_none());
}

#[test]
fn declared_tag_overrides_the_default() {
    let decl = ApiType::Union(Box::new(EnumDecl {
        attrs: vec![BodyAttr::Tag(s("type"))],
        variants: vec![VariantDecl {
            name: s("Lark"),
            attrs: vec![],
            fields: Fields::Named(vec![named("hello", ApiType::Text)]),
        }],
    }));
    let wire = serialize_value(&decl, &ApiValue::Var(0, vec![ApiValue::Str(s("hi"))])).unwrap();
    assert_eq!(
        wire,
        JsonValue::Object(vec![
            (s("type"), JsonValue::String(s("Lark"))),
            (s("hello"), JsonValue::String(s("hi"))),
        ])
    );
}

#[test]
fn wire_conversions_default_to_both() {
    let attrs = seamless::decl::parse_top_attrs(&vec![]);
    assert!(attrs.serialize && attrs.deserialize);
    let only_se = seamless::decl::parse_top_attrs(&vec!["Serialize".to_string()]);
    assert!(only_se.serialize && !only_se.deserialize);
}

#[test]
fn one_unnamed_field_is_transparent() {
    let f = Field { attrs: vec![], ty: ApiType::Number };
    assert!(matches!(Fields::from_unnamed(vec![f]), Fields::Single(_)));
    let two = vec![
        Field { attrs: vec![], ty: ApiType::Number },
        Field { attrs: vec![], ty: ApiType::Text },
    ];
    assert!(matches!(Fields::from_unnamed(two), Fields::Unnamed(_)));
    assert!(matches!(Fields::from_unnamed(vec![]), Fields::Unit));
}

#[test]
fn binary_bodies_pass_through() {
    let body = vec![1, 2, 3];
    let b = seamless::handler::FromBinary::handler_body(body.clone());
    assert_eq!(b.0, body);
    assert_eq!(b.into_body(), vec![1, 2, 3]);
    let raw = seamless::handler::Binary::get_body(vec![9, 9]);
    assert_eq!(raw.bytes, vec![9, 9]);
    let info = seamless::handler::FromBinary::api_body_info();
    assert_eq!(info.description, "Binary data".to_string());
    assert!(matches!(info.ty, ApiBodyType::String));
}

#[test]
fn routes_sharing_a_path_are_ordered_by_method() {
    let mut api = Api::new();
    let post = resolve_handler_with_body(0, &ApiType::Text, &ApiType::Text).unwrap();
    let get = resolve_handler_without_body(0, &ApiType::Text).unwrap();
    api.add(RouteBuilder::new(s("echo")), post);
    api.add(RouteBuilder::new(s("echo")), get);
    let infos = api.info();
    assert_eq!(infos.len(), 2);
    assert_eq!(infos[0].method, Method::Get);
    assert_eq!(infos[1].method, Method::Post);
}

#[test]
fn extractor_adapters_reify_the_inner_outcome() {
    let ok: Result<u64, ApiError> = Ok(7);
    assert_eq!(reify_optional(ok), Ok(Some(7)));
    let err: Result<u64, ApiError> = Err(ApiError::path_not_found());
    assert_eq!(reify_optional(err), Ok(None));
    let err: Result<u64, ApiError> = Err(ApiError::path_not_found());
    assert_eq!(reify_result(err), Ok(Err(ApiError::path_not_found())));
}

#[test]
fn decoding_refuses_what_was_never_serialized() {
    // a flat object missing a required key
    let decl = flatten_decl();
    let missing = JsonValue::Object(vec![(s("hello"), JsonValue::Number(10))]);
    assert!(deserialize_value(&decl, &missing).is_err());
}
