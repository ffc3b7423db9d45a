//! The error classifier: attribute resolution and materialized error records.

use seamless::error::ApiError;
use seamless::error_attrs::{
    ApiErrorAttrs, AttrError, ErrorAttr, ErrorEnumDecl, ErrorFields, ErrorStructDecl,
    ErrorVariantDecl, derive_error_enum, derive_error_struct, into_api_error,
};

fn s(x: &str) -> String {
    x.to_string()
}

fn classify(attrs: Vec<ErrorAttr>, rendering: &str) -> ApiError {
    let parsed = ApiErrorAttrs::parse(&attrs).unwrap();
    let finalised = parsed.finalise().unwrap();
    into_api_error(&finalised, s(rendering), None)
}

fn classify_variant(
    top: Vec<ErrorAttr>,
    own: Vec<ErrorAttr>,
    rendering: &str,
    inner: Option<ApiError>,
) -> ApiError {
    let parent = ApiErrorAttrs::parse(&top).unwrap();
    let parsed = ApiErrorAttrs::parse(&own).unwrap();
    let finalised = parsed.finalise_with_parent_attrs(&parent).unwrap();
    into_api_error(&finalised, s(rendering), inner)
}

#[test]
fn test_internal() {
    let e = classify(vec![ErrorAttr::Internal], "hi");
    assert_eq!(e.internal_message, s("hi"));
    assert_eq!(e.external_message, s("Internal server error"));
    assert_eq!(e.code, 500);
}

#[test]
fn test_external() {
    let e = classify(vec![ErrorAttr::External], "hi");
    assert_eq!(e.internal_message, s("hi"));
    assert_eq!(e.external_message, s("hi"));
    assert_eq!(e.code, 500);
}

#[test]
fn test_internal_with_message() {
    let e = classify(vec![ErrorAttr::ExternalMessage(s("Custom message"))], "hi");
    assert_eq!(e.internal_message, s("hi"));
    assert_eq!(e.external_message, s("Custom message"));
    assert_eq!(e.code, 500);
}

#[test]
fn test_internal_with_message_and_code() {
    let e = classify(
        vec![ErrorAttr::ExternalMessage(s("Not Authed")), ErrorAttr::Code(400)],
        "hi",
    );
    assert_eq!(e.internal_message, s("hi"));
    assert_eq!(e.external_message, s("Not Authed"));
    assert_eq!(e.code, 400);
}

#[test]
fn test_enum_a() {
    // an undocumented variant inherits the union's internal marker
    let a = classify_variant(vec![ErrorAttr::Internal], vec![], "a", None);
    assert_eq!(a.code, 500);
    assert_eq!(a.internal_message, s("a"));
    assert_eq!(a.external_message, s("Internal server error"));
}

#[test]
fn test_enum_b() {
    let a = classify_variant(
        vec![ErrorAttr::Internal],
        vec![ErrorAttr::ExternalMessage(s("Hidden")), ErrorAttr::Code(404)],
        "Custom",
        None,
    );
    assert_eq!(a.code, 404);
    assert_eq!(a.internal_message, s("Custom"));
    assert_eq!(a.external_message, s("Hidden"));
}

#[test]
fn test_enum_c() {
    let a = classify_variant(vec![ErrorAttr::Internal], vec![ErrorAttr::External], "c", None);
    assert_eq!(a.code, 500);
    assert_eq!(a.internal_message, s("c"));
    assert_eq!(a.external_message, s("c"));
}

#[test]
fn test_enum_delegated() {
    // the wrapped error is classified first and carried through unchanged
    let bar = classify(vec![ErrorAttr::External], "bar");
    let a = classify_variant(
        vec![ErrorAttr::Internal],
        vec![ErrorAttr::Inner],
        "DELEGATED",
        Some(bar),
    );
    assert_eq!(a.code, 500);
    assert_eq!(a.internal_message, s("bar"));
    assert_eq!(a.external_message, s("bar"));
}

#[test]
fn conflicting_attributes_are_rejected() {
    assert!(ApiErrorAttrs::parse(&vec![ErrorAttr::Internal, ErrorAttr::External]).is_err());
    assert!(ApiErrorAttrs::parse(&vec![
        ErrorAttr::External,
        ErrorAttr::ExternalMessage(s("boo"))
    ])
    .is_err());
    assert!(ApiErrorAttrs::parse(&vec![ErrorAttr::Inner, ErrorAttr::Code(400)]).is_err());
}

#[test]
fn inner_is_rejected_at_the_top_level() {
    let parent = ApiErrorAttrs::parse(&vec![ErrorAttr::Inner]).unwrap();
    let own = ApiErrorAttrs::parse(&vec![]).unwrap();
    assert!(own.finalise_with_parent_attrs(&parent).is_err());
}

#[test]
fn error_constructors() {
    let e = ApiError::server_error(s("boom"));
    assert_eq!(e.code, 500);
    assert_eq!(e.internal_message, s("boom"));
    assert_eq!(e.external_message, s("Internal server error"));

    let e = ApiError::path_not_found();
    assert_eq!(e.code, 404);
    assert_eq!(e.internal_message, s("Not found"));

    let e = ApiError::not_authorized("no token");
    assert_eq!(e.code, 403);
    assert_eq!(e.external_message, s("Not Authorized: no token"));
    assert_eq!(e.internal_message, s("Not Authorized: no token"));
}

#[test]
fn whole_struct_declaration_is_classified() {
    // a delegating struct must wrap exactly one value
    let bad = ErrorStructDecl { attrs: vec![ErrorAttr::Inner], fields: ErrorFields::Unit };
    assert_eq!(
        derive_error_struct(&bad),
        Err(AttrError::DelegationNeedsSingleField)
    );
    let good = ErrorStructDecl {
        attrs: vec![ErrorAttr::Inner],
        fields: ErrorFields::Unnamed(1),
    };
    assert!(derive_error_struct(&good).unwrap().delegate_to_child);
    // an ordinary internal struct resolves as before
    let plain = ErrorStructDecl {
        attrs: vec![ErrorAttr::Internal, ErrorAttr::Code(401)],
        fields: ErrorFields::Named,
    };
    let f = derive_error_struct(&plain).unwrap();
    let e = into_api_error(&f, s("bad"), None);
    assert_eq!(e.code, 401);
    assert_eq!(e.external_message, s("Internal server error"));
}

#[test]
fn whole_enum_declaration_is_classified() {
    // an empty union is rejected
    let empty = ErrorEnumDecl { attrs: vec![ErrorAttr::Internal], variants: vec![] };
    assert_eq!(derive_error_enum(&empty), Err(AttrError::EmptyEnum));
    // the inner marker is rejected at the top level
    let top_inner = ErrorEnumDecl {
        attrs: vec![ErrorAttr::Inner],
        variants: vec![ErrorVariantDecl { attrs: vec![], fields: ErrorFields::Unit }],
    };
    assert_eq!(derive_error_enum(&top_inner), Err(AttrError::InnerAtTopLevel));
    // a delegating variant must wrap exactly one value
    let bad_delegate = ErrorEnumDecl {
        attrs: vec![ErrorAttr::Internal],
        variants: vec![ErrorVariantDecl {
            attrs: vec![ErrorAttr::Inner],
            fields: ErrorFields::Named,
        }],
    };
    assert_eq!(derive_error_enum(&bad_delegate), Err(AttrError::DelegationNeedsSingleField));
    // the four-variant union resolves variant by variant
    let foo = ErrorEnumDecl {
        attrs: vec![ErrorAttr::Internal],
        variants: vec![
            ErrorVariantDecl { attrs: vec![], fields: ErrorFields::Unit },
            ErrorVariantDecl {
                attrs: vec![ErrorAttr::ExternalMessage(s("Hidden")), ErrorAttr::Code(404)],
                fields: ErrorFields::Named,
            },
            ErrorVariantDecl { attrs: vec![ErrorAttr::External], fields: ErrorFields::Unit },
            ErrorVariantDecl {
                attrs: vec![ErrorAttr::Inner],
                fields: ErrorFields::Unnamed(1),
            },
        ],
    };
    let finals = derive_error_enum(&foo).unwrap();
    assert_eq!(finals.len(), 4);
    let a = into_api_error(&finals[0], s("a"), None);
    assert_eq!((a.code, a.external_message), (500, s("Internal server error")));
    let b = into_api_error(&finals[1], s("Custom"), None);
    assert_eq!((b.code, b.external_message), (404, s("Hidden")));
    let c = into_api_error(&finals[2], s("c"), None);
    assert_eq!((c.code, c.external_message), (500, s("c")));
    let bar = into_api_error(
        &derive_error_struct(&ErrorStructDecl {
            attrs: vec![ErrorAttr::External],
            fields: ErrorFields::Unit,
        })
        .unwrap(),
        s("bar"),
        None,
    );
    let d = into_api_error(&finals[3], s("DELEGATED"), Some(bar));
    assert_eq!((d.code, d.internal_message, d.external_message), (500, s("bar"), s("bar")));
}
