//! The schema model: a closed, recursive description of a JSON value's shape.

use vstd::prelude::*;

verus! {

/// A schema node: a human-friendly description of a type together with the
/// shape of the JSON that values of the type serialize to.
#[derive(Debug, PartialEq, Eq)]
pub struct ApiBodyInfo {
    /// A human friendly description of the type.
    pub description: String,
    /// The shape of the type on the wire.
    pub ty: ApiBodyType,
}

/// The shape of the JSON that is provided to or output from the API.
#[derive(Debug, PartialEq, Eq)]
pub enum ApiBodyType {
    /// A JSON string.
    String,
    /// A JSON number.
    Number,
    /// A JSON boolean.
    Boolean,
    /// The JSON value `null`.
    Null,
    /// Any JSON value; used when the shape cannot be statically determined.
    Any,
    /// An array of values of one type.
    ArrayOf {
        /// The type of all of the values in the array.
        value: Box<ApiBodyInfo>,
    },
    /// A fixed length array of values that can be of mixed types.
    TupleOf {
        /// A list of each of the types in this fixed length array.
        values: Vec<ApiBodyInfo>,
    },
    /// An object whose keys are strings and whose values all have one type.
    ObjectOf {
        /// The type of all of the values in the object.
        value: Box<ApiBodyInfo>,
    },
    /// An object whose keys and value types are known up front.
    Object {
        /// The property name and type of each entry in the object, in order.
        keys: Vec<(String, ApiBodyInfo)>,
    },
    /// The type is one of several alternatives.
    OneOf {
        /// Each of the possible types that this can be.
        values: Vec<ApiBodyInfo>,
    },
    /// A string literal with one specific value.
    StringLiteral {
        /// The exact string expected.
        literal: String,
    },
    /// The value is optional: it may be absent or `null`.
    Optional {
        /// The type that is optional.
        value: Box<ApiBodyInfo>,
    },
}

/// The derived form of a record with named fields: its description and its
/// object entries, before any tag injection or flattening into a parent.
#[derive(Debug, PartialEq, Eq)]
pub struct ApiBodyStructInfo {
    /// A human friendly description of the record.
    pub description: String,
    /// The property name and node of each entry, in order, names unique.
    pub struc: Vec<(String, ApiBodyInfo)>,
}

/// Deep structural equality of schema nodes: equal descriptions and equal
/// shapes, compared by content (string views), not by allocation.
pub open spec fn info_eq(a: ApiBodyInfo, b: ApiBodyInfo) -> bool
    decreases a, 1int,
{
    a.description@ == b.description@ && shape_eq(a.ty, b.ty)
}

/// Deep structural equality of two shapes.
pub open spec fn shape_eq(a: ApiBodyType, b: ApiBodyType) -> bool
    decreases a, 0int,
{
    match (a, b) {
        (ApiBodyType::String, ApiBodyType::String) => true,
        (ApiBodyType::Number, ApiBodyType::Number) => true,
        (ApiBodyType::Boolean, ApiBodyType::Boolean) => true,
        (ApiBodyType::Null, ApiBodyType::Null) => true,
        (ApiBodyType::Any, ApiBodyType::Any) => true,
        (ApiBodyType::ArrayOf { value: va }, ApiBodyType::ArrayOf { value: vb }) => info_eq(
            *va,
            *vb,
        ),
        (ApiBodyType::TupleOf { values: va }, ApiBodyType::TupleOf { values: vb }) => infos_eq(
            va@,
            vb@,
        ),
        (ApiBodyType::ObjectOf { value: va }, ApiBodyType::ObjectOf { value: vb }) => info_eq(
            *va,
            *vb,
        ),
        (ApiBodyType::Object { keys: ka }, ApiBodyType::Object { keys: kb }) => keys_eq(ka@, kb@),
        (ApiBodyType::OneOf { values: va }, ApiBodyType::OneOf { values: vb }) => infos_eq(
            va@,
            vb@,
        ),
        (
            ApiBodyType::StringLiteral { literal: la },
            ApiBodyType::StringLiteral { literal: lb },
        ) => la@ == lb@,
        (ApiBodyType::Optional { value: va }, ApiBodyType::Optional { value: vb }) => info_eq(
            *va,
            *vb,
        ),
        _ => false,
    }
}

/// Pointwise deep equality of two sequences of schema nodes.
pub open spec fn infos_eq(a: Seq<ApiBodyInfo>, b: Seq<ApiBodyInfo>) -> bool
    decreases a, 2int,
{
    if a.len() != b.len() {
        false
    } else if a.len() == 0 {
        true
    } else {
        info_eq(a[0], b[0]) && infos_eq(a.drop_first(), b.drop_first())
    }
}

/// Pointwise deep equality of two key lists: equal names and equal nodes.
pub open spec fn keys_eq(a: Seq<(String, ApiBodyInfo)>, b: Seq<(String, ApiBodyInfo)>) -> bool
    decreases a, 2int,
{
    if a.len() != b.len() {
        false
    } else if a.len() == 0 {
        true
    } else {
        a[0].0@ == b[0].0@ && info_eq(a[0].1, b[0].1) && keys_eq(a.drop_first(), b.drop_first())
    }
}

/// A schema node with an empty description and the given shape.
pub fn plain(ty: ApiBodyType) -> (r: ApiBodyInfo)
    ensures
        r.description@ == Seq::<char>::empty(),
        r.ty == ty,
{
    ApiBodyInfo { description: String::new(), ty }
}

/// Pointwise deep equality of schema nodes gives `infos_eq`.
pub proof fn lemma_infos_eq_intro(a: Seq<ApiBodyInfo>, b: Seq<ApiBodyInfo>)
    requires
        a.len() == b.len(),
        forall|i: int| 0 <= i < a.len() ==> info_eq(#[trigger] a[i], b[i]),
    ensures
        infos_eq(a, b),
    decreases a.len(),
{
    if a.len() > 0 {
        assert(info_eq(a[0], b[0]));
        assert(forall|i: int|
            0 <= i < a.drop_first().len() ==> a.drop_first()[i] == a[i + 1] && b.drop_first()[i]
                == b[i + 1]);
        lemma_infos_eq_intro(a.drop_first(), b.drop_first());
    }
}

/// Pointwise name and node equality gives `keys_eq`.
pub proof fn lemma_keys_eq_intro(a: Seq<(String, ApiBodyInfo)>, b: Seq<(String, ApiBodyInfo)>)
    requires
        a.len() == b.len(),
        forall|i: int| 0 <= i < a.len() ==> (#[trigger] a[i]).0@ == b[i].0@,
        forall|i: int| 0 <= i < a.len() ==> info_eq((#[trigger] a[i]).1, b[i].1),
    ensures
        keys_eq(a, b),
    decreases a.len(),
{
    if a.len() > 0 {
        assert(a[0].0@ == b[0].0@ && info_eq(a[0].1, b[0].1));
        assert(forall|i: int|
            0 <= i < a.drop_first().len() ==> a.drop_first()[i] == a[i + 1] && b.drop_first()[i]
                == b[i + 1]);
        lemma_keys_eq_intro(a.drop_first(), b.drop_first());
    }
}

} // verus!
