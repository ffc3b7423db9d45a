//! Type declarations: the registered descriptions of record and union types
//! from which schemas are derived, together with their attributes.

use vstd::prelude::*;
use crate::text::{is_ws_char, spec_trim_start_ws, trim_start_ws};

verus! {

/// One attribute attached to a type, field or variant declaration.
#[derive(Debug, PartialEq, Eq)]
pub enum BodyAttr {
    /// One documentation line, with its leading whitespace still present.
    Doc(String),
    /// A serde attribute: not allowed on declared types, which manage their
    /// own wire encoding.
    Serde,
    /// Overrides the discriminant key of a union (the default is "kind").
    Tag(String),
    /// Marks a record field whose keys are merged into the parent object.
    Flatten,
}

/// The properties read off a declaration's attribute list.
#[derive(Debug, PartialEq, Eq)]
pub struct Props {
    /// The documentation lines, each trimmed at the front, joined by newlines.
    pub docs: String,
    /// The declared discriminant key, if any.
    pub tag: Option<String>,
    /// Whether the flatten marker is present.
    pub flatten: bool,
}

/// Which of the wire conversions a declared type asks for.
#[derive(Debug, PartialEq, Eq)]
pub struct Attrs {
    /// Values of the type can be read from the wire.
    pub deserialize: bool,
    /// Values of the type can be written to the wire.
    pub serialize: bool,
}

/// A reason a declaration is rejected at registration time. All of these are
/// hard errors: a malformed declaration never becomes a runtime condition.
#[derive(Debug, PartialEq, Eq, Clone, Copy)]
pub enum DeriveError {
    /// serde attributes are not allowed on declared types.
    SerdeAttributeNotAllowed,
    /// A union variant with multiple unnamed fields has no place for a tag.
    TupleVariantNotAllowed,
    /// Unit variants cannot be mixed with non-unit variants in one union.
    MixedUnitAndNamedVariants,
    /// A record with no fields at all is unrepresentable on the wire.
    UnitStructNotSupported,
    /// The target of a flatten marker or of a single-value variant must be a
    /// record with named fields.
    NotAStruct,
}

/// An unnamed field of a record declaration.
#[derive(Debug, PartialEq, Eq)]
pub struct Field {
    /// The attributes on the field (documentation lines).
    pub attrs: Vec<BodyAttr>,
    /// The field's declared type.
    pub ty: ApiType,
}

/// A named field of a record declaration.
#[derive(Debug, PartialEq, Eq)]
pub struct NamedField {
    /// The attributes on the field (documentation, flatten).
    pub attrs: Vec<BodyAttr>,
    /// The field's name: the object key it serializes under.
    pub name: String,
    /// The field's declared type.
    pub ty: ApiType,
}

/// The field list of a record or of a union variant.
#[derive(Debug, PartialEq, Eq)]
pub enum Fields {
    /// No fields at all.
    Unit,
    /// Exactly one unnamed field: the record is transparent.
    Single(Field),
    /// Two or more unnamed fields: the record is a tuple.
    Unnamed(Vec<Field>),
    /// Named fields: the record is an object.
    Named(Vec<NamedField>),
}

/// A record declaration: attributes and ordered fields.
#[derive(Debug, PartialEq, Eq)]
pub struct StructDecl {
    /// The attributes on the record (documentation lines).
    pub attrs: Vec<BodyAttr>,
    /// The record's fields.
    pub fields: Fields,
}

/// One variant of a union declaration.
#[derive(Debug, PartialEq, Eq)]
pub struct VariantDecl {
    /// The variant's name: its tag value on the wire.
    pub name: String,
    /// The attributes on the variant (documentation lines).
    pub attrs: Vec<BodyAttr>,
    /// The variant's payload.
    pub fields: Fields,
}

/// A union declaration: attributes (documentation, tag key) and variants.
#[derive(Debug, PartialEq, Eq)]
pub struct EnumDecl {
    /// The attributes on the union (documentation lines, discriminant key).
    pub attrs: Vec<BodyAttr>,
    /// The union's variants.
    pub variants: Vec<VariantDecl>,
}

/// A declared type: the closed set of types whose values the API carries.
#[derive(Debug, PartialEq, Eq)]
pub enum ApiType {
    /// A number.
    Number,
    /// A boolean.
    Boolean,
    /// A string.
    Text,
    /// The unit type: serializes to null.
    Unit,
    /// An untyped JSON value: any shape.
    AnyJson,
    /// A UUID, carried on the wire as a string.
    Uuid,
    /// A datetime, carried on the wire as a string.
    DateTime,
    /// A homogeneous sequence.
    ArrayOf(Box<ApiType>),
    /// A fixed-length tuple of possibly mixed types.
    Tuple(Vec<ApiType>),
    /// A string-keyed map with values of one type.
    MapOf(Box<ApiType>),
    /// An optional value.
    Optional(Box<ApiType>),
    /// A declared record.
    Record(Box<StructDecl>),
    /// A declared union of variants.
    Union(Box<EnumDecl>),
}

impl Fields {
    /// Classify a list of unnamed fields: one field makes the record
    /// transparent, more make it a tuple, none make it a unit.
    pub fn from_unnamed(mut fields: Vec<Field>) -> (r: Fields)
        ensures
            fields@.len() == 0 ==> r == Fields::Unit,
            fields@.len() == 1 ==> r == Fields::Single(fields@[0]),
            fields@.len() >= 2 ==> r == Fields::Unnamed(fields),
    {
        if fields.len() == 0 {
            Fields::Unit
        } else if fields.len() == 1 {
            let f = fields.pop().unwrap();
            Fields::Single(f)
        } else {
            Fields::Unnamed(fields)
        }
    }
}

/// Is one of the attributes a serde attribute?
pub open spec fn has_serde(attrs: Seq<BodyAttr>) -> bool {
    exists|i: int| 0 <= i < attrs.len() && attrs[i] is Serde
}

/// Is the flatten marker among the attributes?
pub open spec fn spec_flatten(attrs: Seq<BodyAttr>) -> bool {
    exists|i: int| 0 <= i < attrs.len() && attrs[i] is Flatten
}

/// The declared discriminant key: the last tag attribute wins.
pub open spec fn spec_tag(attrs: Seq<BodyAttr>) -> Option<Seq<char>>
    decreases attrs.len(),
{
    if attrs.len() == 0 {
        None
    } else {
        match attrs.last() {
            BodyAttr::Tag(t) => Some(t@),
            _ => spec_tag(attrs.drop_last()),
        }
    }
}

/// The documentation text: each line trimmed at the front, joined by newlines.
pub open spec fn spec_docs(attrs: Seq<BodyAttr>) -> Seq<char>
    decreases attrs.len(),
{
    if attrs.len() == 0 {
        Seq::empty()
    } else {
        let rest = spec_docs(attrs.drop_last());
        match attrs.last() {
            BodyAttr::Doc(d) => if rest.len() == 0 {
                spec_trim_start_ws(d@)
            } else {
                rest + seq!['\n'] + spec_trim_start_ws(d@)
            },
            _ => rest,
        }
    }
}

/// Read the properties off an attribute list. Serde attributes are rejected;
/// documentation lines are trimmed and joined; the last tag wins.
pub fn parse(attrs: &Vec<BodyAttr>) -> (r: Result<Props, DeriveError>)
    ensures
        r is Err <==> has_serde(attrs@),
        r matches Err(e) ==> e == DeriveError::SerdeAttributeNotAllowed,
        r matches Ok(p) ==> {
            &&& p.docs@ == spec_docs(attrs@)
            &&& (p.tag matches Some(t) && spec_tag(attrs@) matches Some(s) && t@ == s) || (p.tag
                is None && spec_tag(attrs@) is None)
            &&& p.flatten == spec_flatten(attrs@)
        },
{
    let mut docs = String::new();
    let mut tag: Option<String> = None;
    let mut flatten = false;
    let mut i: usize = 0;
    while i < attrs.len()
        invariant
            0 <= i <= attrs@.len(),
            !has_serde(attrs@.subrange(0, i as int)),
            docs@ == spec_docs(attrs@.subrange(0, i as int)),
            (tag matches Some(t) && spec_tag(attrs@.subrange(0, i as int)) matches Some(s) && t@
                == s) || (tag is None && spec_tag(attrs@.subrange(0, i as int)) is None),
            flatten == spec_flatten(attrs@.subrange(0, i as int)),
        decreases attrs@.len() - i,
    {
        let ghost prefix = attrs@.subrange(0, i as int);
        let ghost next = attrs@.subrange(0, i + 1 as int);
        proof {
            assert(next.drop_last() =~= prefix);
            assert(next.last() == attrs@[i as int]);
        }
        match &attrs[i] {
            BodyAttr::Serde => {
                assert(has_serde(attrs@)) by {
                    assert(attrs@[i as int] is Serde);
                }
                return Err(DeriveError::SerdeAttributeNotAllowed);
            },
            BodyAttr::Doc(d) => {
                let trimmed = trim_start_ws(d.as_str());
                if docs.unicode_len() > 0 {
                    docs.append("\n");
                    proof {
                        reveal_strlit("\n");
                    }
                } else {
                    assert(docs@.len() == 0);
                }
                docs.append(trimmed);
            },
            BodyAttr::Tag(t) => {
                tag = Some(t.clone());
            },
            BodyAttr::Flatten => {
                flatten = true;
                assert(spec_flatten(next)) by {
                    assert(next[i as int] is Flatten);
                }
            },
        }
        proof {
            if flatten && spec_flatten(prefix) {
                let w = choose|j: int| 0 <= j < prefix.len() && prefix[j] is Flatten;
                assert(next[w] is Flatten);
            }
            if !flatten {
                assert(forall|j: int| 0 <= j < next.len() ==> !(next[j] is Flatten));
            }
            if has_serde(next) {
                let w = choose|j: int| 0 <= j < next.len() && next[j] is Serde;
                assert(prefix[w] is Serde);
            }
        }
        i = i + 1;
    }
    proof {
        assert(attrs@.subrange(0, attrs@.len() as int) =~= attrs@);
    }
    Ok(Props { docs, tag, flatten })
}

/// Decide which wire conversions a declaration asks for: all of them when the
/// list is empty, otherwise exactly the ones that are named.
pub fn parse_top_attrs(idents: &Vec<String>) -> (r: Attrs)
    ensures
        idents@.len() == 0 ==> r.serialize && r.deserialize,
        idents@.len() > 0 ==> r.serialize == (exists|i: int|
            0 <= i < idents@.len() && idents@[i]@ == "Serialize"@),
        idents@.len() > 0 ==> r.deserialize == (exists|i: int|
            0 <= i < idents@.len() && idents@[i]@ == "Deserialize"@),
{
    if idents.len() == 0 {
        return Attrs { serialize: true, deserialize: true };
    }
    let mut se = false;
    let mut de = false;
    let serialize_name: String = String::from_str("Serialize");
    let deserialize_name: String = String::from_str("Deserialize");
    let mut i: usize = 0;
    while i < idents.len()
        invariant
            0 <= i <= idents@.len(),
            serialize_name@ == "Serialize"@,
            deserialize_name@ == "Deserialize"@,
            se == (exists|j: int| 0 <= j < i && idents@[j]@ == "Serialize"@),
            de == (exists|j: int| 0 <= j < i && idents@[j]@ == "Deserialize"@),
        decreases idents@.len() - i,
    {
        proof {
            reveal_strlit("Serialize");
            reveal_strlit("Deserialize");
            assert("Serialize"@.len() != "Deserialize"@.len());
        }
        if idents[i].eq(&serialize_name) {
            se = true;
        } else if idents[i].eq(&deserialize_name) {
            de = true;
        }
        i = i + 1;
    }
    Attrs { serialize: se, deserialize: de }
}

} // verus!
