//! The error classifier: resolves the attributes declared on an error type
//! or its variants into a normalized classification, and materializes the
//! uniform error record from a rendering and an optional inner error.

use vstd::prelude::*;
use crate::error::ApiError;

verus! {

/// One attribute of an error declaration.
#[derive(Debug, PartialEq, Eq)]
pub enum ErrorAttr {
    /// The rendering is for internal eyes only.
    Internal,
    /// The rendering may be shown to API consumers.
    External,
    /// The classification is delegated to the wrapped inner error.
    Inner,
    /// A fixed external message, shown instead of the rendering.
    ExternalMessage(String),
    /// The status code to respond with.
    Code(u16),
}

/// The attributes read off an error declaration, still unresolved.
#[derive(Debug, PartialEq, Eq)]
pub struct ApiErrorAttrs {
    /// The internal marker is present.
    pub internal: bool,
    /// The external marker is present.
    pub external: bool,
    /// The inner marker is present.
    pub inner: bool,
    /// The declared external message, last one wins.
    pub external_message: Option<String>,
    /// The declared status code, last one wins.
    pub code: Option<u16>,
}

/// The resolved classification of an error type or variant.
#[derive(Debug, PartialEq, Eq)]
pub struct FinalApiErrorAttrs {
    /// The fixed external message; when absent the rendering is shown.
    pub external_message: Option<String>,
    /// The status code; 500 when none was declared.
    pub code: u16,
    /// The classification is delegated to the wrapped inner error.
    pub delegate_to_child: bool,
}

/// A reason an error declaration is rejected at registration time.
#[derive(Debug, PartialEq, Eq, Clone, Copy)]
pub enum AttrError {
    /// The inner marker makes no sense alongside any other attribute.
    InnerWithOtherAttributes,
    /// The internal and external markers cannot both be declared.
    InternalAndExternal,
    /// The external marker and a fixed external message cannot coexist.
    ExternalAndExternalMessage,
    /// The inner marker is not allowed at the top level of a union.
    InnerAtTopLevel,
    /// Delegation requires exactly one unnamed field to delegate to.
    DelegationNeedsSingleField,
    /// A union without variants cannot classify anything.
    EmptyEnum,
}

/// Is the internal marker among the attributes?
pub open spec fn spec_has_internal(items: Seq<ErrorAttr>) -> bool {
    exists|i: int| 0 <= i < items.len() && items[i] is Internal
}

/// Is the external marker among the attributes?
pub open spec fn spec_has_external(items: Seq<ErrorAttr>) -> bool {
    exists|i: int| 0 <= i < items.len() && items[i] is External
}

/// Is the inner marker among the attributes?
pub open spec fn spec_has_inner(items: Seq<ErrorAttr>) -> bool {
    exists|i: int| 0 <= i < items.len() && items[i] is Inner
}

/// The declared external message: the last one wins.
pub open spec fn spec_ext_msg(items: Seq<ErrorAttr>) -> Option<Seq<char>>
    decreases items.len(),
{
    if items.len() == 0 {
        None
    } else {
        match items.last() {
            ErrorAttr::ExternalMessage(m) => Some(m@),
            _ => spec_ext_msg(items.drop_last()),
        }
    }
}

/// The declared status code: the last one wins.
pub open spec fn spec_code(items: Seq<ErrorAttr>) -> Option<u16>
    decreases items.len(),
{
    if items.len() == 0 {
        None
    } else {
        match items.last() {
            ErrorAttr::Code(c) => Some(c),
            _ => spec_code(items.drop_last()),
        }
    }
}

/// Does the resolved classification match the given unresolved attributes?
/// This is the resolution rule: `inner`, or nothing at all, delegates; the
/// internal marker or a fixed message keeps the rendering internal and shows
/// the fixed message (or the fixed default); a bare external marker shows
/// the rendering; the code defaults to 500 and is 0 where it is never used.
pub open spec fn final_matches(
    internal: bool,
    external: bool,
    inner: bool,
    ext_msg: Option<Seq<char>>,
    code: Option<u16>,
    f: FinalApiErrorAttrs,
) -> bool {
    if inner || (!internal && !external && ext_msg is None) {
        f.delegate_to_child && f.code == 0 && f.external_message is None
    } else if internal || ext_msg is Some {
        &&& !f.delegate_to_child
        &&& f.code == (match code {
            Some(c) => c,
            None => 500u16,
        })
        &&& f.external_message matches Some(m) && m@ == (match ext_msg {
            Some(t) => t,
            None => "Internal server error"@,
        })
    } else {
        &&& !f.delegate_to_child
        &&& f.code == (match code {
            Some(c) => c,
            None => 500u16,
        })
        &&& f.external_message is None
    }
}

impl ApiErrorAttrs {
    /// Read the attributes off a declaration's list, rejecting the
    /// combinations that make no sense.
    pub fn parse(items: &Vec<ErrorAttr>) -> (r: Result<ApiErrorAttrs, AttrError>)
        ensures
            r is Err <==> ((spec_has_inner(items@) && (spec_has_external(items@)
                || spec_has_internal(items@) || spec_ext_msg(items@) is Some || spec_code(items@)
                is Some)) || (spec_has_external(items@) && spec_has_internal(items@)) || (
            spec_has_external(items@) && spec_ext_msg(items@) is Some)),
            r matches Ok(a) ==> {
                &&& a.internal == spec_has_internal(items@)
                &&& a.external == spec_has_external(items@)
                &&& a.inner == spec_has_inner(items@)
                &&& ((a.external_message matches Some(m) && spec_ext_msg(items@) matches Some(t)
                    && m@ == t) || (a.external_message is None && spec_ext_msg(items@) is None))
                &&& a.code == spec_code(items@)
            },
    {
        let mut internal = false;
        let mut external = false;
        let mut inner = false;
        let mut external_message: Option<String> = None;
        let mut code: Option<u16> = None;
        let mut i: usize = 0;
        while i < items.len()
            invariant
                0 <= i <= items@.len(),
                internal == spec_has_internal(items@.subrange(0, i as int)),
                external == spec_has_external(items@.subrange(0, i as int)),
                inner == spec_has_inner(items@.subrange(0, i as int)),
                ((external_message matches Some(m) && spec_ext_msg(
                    items@.subrange(0, i as int),
                ) matches Some(t) && m@ == t) || (external_message is None && spec_ext_msg(
                    items@.subrange(0, i as int),
                ) is None)),
                code == spec_code(items@.subrange(0, i as int)),
            decreases items@.len() - i,
        {
            let ghost prefix = items@.subrange(0, i as int);
            let ghost next = items@.subrange(0, i + 1 as int);
            proof {
                assert(next.drop_last() =~= prefix);
                assert(next.last() == items@[i as int]);
                lemma_flag_prefix(items@, i as int);
            }
            match &items[i] {
                ErrorAttr::Internal => {
                    internal = true;
                },
                ErrorAttr::External => {
                    external = true;
                },
                ErrorAttr::Inner => {
                    inner = true;
                },
                ErrorAttr::ExternalMessage(m) => {
                    external_message = Some(m.clone());
                },
                ErrorAttr::Code(c) => {
                    code = Some(*c);
                },
            }
            i = i + 1;
        }
        proof {
            assert(items@.subrange(0, items@.len() as int) =~= items@);
        }
        if inner && (external || external_message.is_some() || internal || code.is_some()) {
            return Err(AttrError::InnerWithOtherAttributes);
        }
        if external && internal {
            return Err(AttrError::InternalAndExternal);
        }
        if external && external_message.is_some() {
            return Err(AttrError::ExternalAndExternalMessage);
        }
        Ok(ApiErrorAttrs { internal, external, inner, external_message, code })
    }

    /// Resolve the attributes of a standalone declaration. The inner marker,
    /// or nothing at all, delegates to the wrapped error.
    pub fn finalise(self) -> (r: Result<FinalApiErrorAttrs, AttrError>)
        ensures
            r is Err <==> (!self.inner && self.external && self.external_message is Some),
            r matches Err(e) ==> e == AttrError::ExternalAndExternalMessage,
            r matches Ok(f) ==> final_matches(
                self.internal,
                self.external,
                self.inner,
                match self.external_message {
                    Some(m) => Some(m@),
                    None => None,
                },
                self.code,
                f,
            ),
    {
        if self.inner {
            return Ok(
                FinalApiErrorAttrs { external_message: None, code: 0, delegate_to_child: true },
            );
        }
        let code: u16 = match self.code {
            Some(c) => c,
            None => 500,
        };
        if self.external && self.external_message.is_some() {
            Err(AttrError::ExternalAndExternalMessage)
        } else if self.internal || self.external_message.is_some() {
            let msg = match self.external_message {
                Some(m) => m,
                None => String::from_str("Internal server error"),
            };
            Ok(FinalApiErrorAttrs { external_message: Some(msg), code, delegate_to_child: false })
        } else if self.external {
            Ok(FinalApiErrorAttrs { external_message: None, code, delegate_to_child: false })
        } else {
            Ok(FinalApiErrorAttrs { external_message: None, code: 0, delegate_to_child: true })
        }
    }

    /// Resolve a variant's attributes under its union's: a variant that
    /// declares none of the markers inherits the union's wholesale, and the
    /// code is inherited independently when absent.
    pub fn finalise_with_parent_attrs(self, parent: &ApiErrorAttrs) -> (r: Result<
        FinalApiErrorAttrs,
        AttrError,
    >)
        ensures
            parent.inner ==> r == Err::<FinalApiErrorAttrs, AttrError>(AttrError::InnerAtTopLevel),
            !parent.inner ==> {
                let internal = if !self.external && !self.internal && self.external_message
                    is None {
                    parent.internal
                } else {
                    self.internal
                };
                let external = if !self.external && !self.internal && self.external_message
                    is None {
                    parent.external
                } else {
                    self.external
                };
                let ext_msg = if !self.external && !self.internal && self.external_message
                    is None {
                    match parent.external_message {
                        Some(m) => Some(m@),
                        None => None,
                    }
                } else {
                    match self.external_message {
                        Some(m) => Some(m@),
                        None => None,
                    }
                };
                let code = if self.code is Some {
                    self.code
                } else {
                    parent.code
                };
                &&& (r is Err <==> (!self.inner && external && ext_msg is Some))
                &&& (r matches Err(e) ==> e == AttrError::ExternalAndExternalMessage)
                &&& (r matches Ok(f) ==> final_matches(
                    internal,
                    external,
                    self.inner,
                    ext_msg,
                    code,
                    f,
                ))
            },
    {
        if parent.inner {
            return Err(AttrError::InnerAtTopLevel);
        }
        let mut merged = self;
        if !merged.external && !merged.internal && merged.external_message.is_none() {
            merged.external = parent.external;
            merged.internal = parent.internal;
            merged.external_message = match &parent.external_message {
                Some(m) => Some(m.clone()),
                None => None,
            };
        }
        if merged.code.is_none() {
            merged.code = parent.code;
        }
        merged.finalise()
    }
}

proof fn lemma_flag_prefix(items: Seq<ErrorAttr>, i: int)
    requires
        0 <= i < items.len(),
    ensures
        spec_has_internal(items.subrange(0, i + 1)) == (spec_has_internal(items.subrange(0, i))
            || items[i] is Internal),
        spec_has_external(items.subrange(0, i + 1)) == (spec_has_external(items.subrange(0, i))
            || items[i] is External),
        spec_has_inner(items.subrange(0, i + 1)) == (spec_has_inner(items.subrange(0, i))
            || items[i] is Inner),
{
    let p = items.subrange(0, i);
    let n = items.subrange(0, i + 1);
    assert(n.drop_last() =~= p);
    if spec_has_internal(p) {
        let w = choose|w: int| 0 <= w < p.len() && p[w] is Internal;
        assert(n[w] is Internal);
    }
    if items[i] is Internal {
        assert(n[i] is Internal);
    }
    if spec_has_internal(n) && !(items[i] is Internal) {
        let w = choose|w: int| 0 <= w < n.len() && n[w] is Internal;
        assert(w < i ==> p[w] is Internal);
    }
    if spec_has_external(p) {
        let w = choose|w: int| 0 <= w < p.len() && p[w] is External;
        assert(n[w] is External);
    }
    if items[i] is External {
        assert(n[i] is External);
    }
    if spec_has_external(n) && !(items[i] is External) {
        let w = choose|w: int| 0 <= w < n.len() && n[w] is External;
        assert(w < i ==> p[w] is External);
    }
    if spec_has_inner(p) {
        let w = choose|w: int| 0 <= w < p.len() && p[w] is Inner;
        assert(n[w] is Inner);
    }
    if items[i] is Inner {
        assert(n[i] is Inner);
    }
    if spec_has_inner(n) && !(items[i] is Inner) {
        let w = choose|w: int| 0 <= w < n.len() && n[w] is Inner;
        assert(w < i ==> p[w] is Inner);
    }
}

/// Materialize the uniform error record from a resolved classification, the
/// declaration's human-readable rendering, and, for a delegating
/// classification, the already-classified inner error.
pub fn into_api_error(f: &FinalApiErrorAttrs, rendering: String, inner: Option<ApiError>) -> (r:
    ApiError)
    requires
        f.delegate_to_child ==> inner is Some,
    ensures
        f.delegate_to_child ==> (inner matches Some(e) && r == e),
        !f.delegate_to_child ==> {
            &&& r.code == f.code
            &&& r.internal_message@ == rendering@
            &&& r.external_message@ == (match f.external_message {
                Some(m) => m@,
                None => rendering@,
            })
            &&& r.value is None
        },
{
    if f.delegate_to_child {
        match inner {
            Some(e) => e,
            None => ApiError::server_error(rendering),
        }
    } else {
        let external_message = match &f.external_message {
            Some(m) => m.clone(),
            None => rendering.clone(),
        };
        ApiError { code: f.code, internal_message: rendering, external_message, value: None }
    }
}

// ---------------------------------------------------------------------------
// Whole-declaration registration: shapes and attributes checked together.
// ---------------------------------------------------------------------------
/// The shape of an error type's or variant's field list: all that the
/// classifier needs to know of it.
#[derive(Debug, PartialEq, Eq, Clone, Copy)]
pub enum ErrorFields {
    /// No fields.
    Unit,
    /// This many unnamed fields.
    Unnamed(usize),
    /// Named fields.
    Named,
}

/// A standalone error type's declaration.
#[derive(Debug, PartialEq, Eq)]
pub struct ErrorStructDecl {
    /// The attributes on the type.
    pub attrs: Vec<ErrorAttr>,
    /// The shape of its fields.
    pub fields: ErrorFields,
}

/// One variant of an error union's declaration.
#[derive(Debug, PartialEq, Eq)]
pub struct ErrorVariantDecl {
    /// The attributes on the variant.
    pub attrs: Vec<ErrorAttr>,
    /// The shape of its fields.
    pub fields: ErrorFields,
}

/// An error union's declaration.
#[derive(Debug, PartialEq, Eq)]
pub struct ErrorEnumDecl {
    /// The attributes on the union itself.
    pub attrs: Vec<ErrorAttr>,
    /// The union's variants.
    pub variants: Vec<ErrorVariantDecl>,
}

/// The attribute combinations that parsing accepts.
pub open spec fn attrs_wf(items: Seq<ErrorAttr>) -> bool {
    &&& !(spec_has_inner(items) && (spec_has_external(items) || spec_has_internal(items)
        || spec_ext_msg(items) is Some || spec_code(items) is Some))
    &&& !(spec_has_external(items) && spec_has_internal(items))
    &&& !(spec_has_external(items) && spec_ext_msg(items) is Some)
}

/// Does the declaration delegate its classification to a wrapped error?
/// The inner marker does; so does declaring nothing at all.
pub open spec fn spec_delegates(items: Seq<ErrorAttr>) -> bool {
    spec_has_inner(items) || (!spec_has_internal(items) && !spec_has_external(items)
        && spec_ext_msg(items) is None)
}

/// Does the variant choose its own external or internal rendering? Only
/// then does it override the union's choice.
pub open spec fn v_specifies(va: Seq<ErrorAttr>) -> bool {
    spec_has_internal(va) || spec_has_external(va) || spec_ext_msg(va) is Some
}

/// The variant's internal marker after inheriting from the union.
pub open spec fn m_internal(va: Seq<ErrorAttr>, ta: Seq<ErrorAttr>) -> bool {
    if v_specifies(va) {
        spec_has_internal(va)
    } else {
        spec_has_internal(ta)
    }
}

/// The variant's external marker after inheriting from the union.
pub open spec fn m_external(va: Seq<ErrorAttr>, ta: Seq<ErrorAttr>) -> bool {
    if v_specifies(va) {
        spec_has_external(va)
    } else {
        spec_has_external(ta)
    }
}

/// The variant's fixed external message after inheriting from the union.
pub open spec fn m_ext_msg(va: Seq<ErrorAttr>, ta: Seq<ErrorAttr>) -> Option<Seq<char>> {
    if v_specifies(va) {
        spec_ext_msg(va)
    } else {
        spec_ext_msg(ta)
    }
}

/// The variant's code after inheriting it, independently, from the union.
pub open spec fn m_code(va: Seq<ErrorAttr>, ta: Seq<ErrorAttr>) -> Option<u16> {
    if spec_code(va) is Some {
        spec_code(va)
    } else {
        spec_code(ta)
    }
}

/// Does the variant, resolved under the union's attributes, delegate?
pub open spec fn variant_delegates(va: Seq<ErrorAttr>, ta: Seq<ErrorAttr>) -> bool {
    spec_has_inner(va) || (!m_internal(va, ta) && !m_external(va, ta) && m_ext_msg(va, ta)
        is None)
}

/// The registration accepts the variant: parseable attributes, and a
/// delegating variant wraps exactly one value.
pub open spec fn error_variant_accepted(ta: Seq<ErrorAttr>, v: ErrorVariantDecl) -> bool {
    attrs_wf(v.attrs@) && (variant_delegates(v.attrs@, ta) ==> v.fields == ErrorFields::Unnamed(
        1usize,
    ))
}

/// The registration accepts the standalone error type: parseable
/// attributes, and delegation only with exactly one wrapped value.
pub open spec fn error_struct_accepted(d: ErrorStructDecl) -> bool {
    attrs_wf(d.attrs@) && (spec_delegates(d.attrs@) ==> d.fields == ErrorFields::Unnamed(1usize))
}

/// The registration accepts the error union: it has variants, its own
/// attributes parse and carry no inner marker, and every variant is
/// accepted.
pub open spec fn error_enum_accepted(e: ErrorEnumDecl) -> bool {
    &&& e.variants@.len() > 0
    &&& attrs_wf(e.attrs@)
    &&& !spec_has_inner(e.attrs@)
    &&& forall|i: int|
        0 <= i < e.variants@.len() ==> error_variant_accepted(
            e.attrs@,
            #[trigger] e.variants@[i],
        )
}

/// Register a standalone error type: resolve its attributes and check that
/// a delegating declaration wraps exactly one value. A hard error here, at
/// registration; never a runtime condition.
pub fn derive_error_struct(d: &ErrorStructDecl) -> (r: Result<FinalApiErrorAttrs, AttrError>)
    ensures
        r is Ok <==> error_struct_accepted(*d),
        r matches Ok(f) ==> {
            &&& final_matches(
                spec_has_internal(d.attrs@),
                spec_has_external(d.attrs@),
                spec_has_inner(d.attrs@),
                spec_ext_msg(d.attrs@),
                spec_code(d.attrs@),
                f,
            )
            &&& (f.delegate_to_child ==> d.fields == ErrorFields::Unnamed(1usize))
        },
{
    let parsed = match ApiErrorAttrs::parse(&d.attrs) {
        Ok(p) => p,
        Err(e) => {
            return Err(e);
        },
    };
    let finalised = match parsed.finalise() {
        Ok(f) => f,
        Err(e) => {
            return Err(e);
        },
    };
    if finalised.delegate_to_child {
        match d.fields {
            ErrorFields::Unnamed(n) => {
                if n != 1 {
                    return Err(AttrError::DelegationNeedsSingleField);
                }
            },
            _ => {
                return Err(AttrError::DelegationNeedsSingleField);
            },
        }
    }
    Ok(finalised)
}

/// Register an error union: a union without variants is rejected, the
/// union's attributes resolve into each variant's, and a delegating variant
/// must wrap exactly one value. All hard errors here, at registration.
#[verifier::loop_isolation(false)]
pub fn derive_error_enum(e: &ErrorEnumDecl) -> (r: Result<Vec<FinalApiErrorAttrs>, AttrError>)
    ensures
        r is Ok <==> error_enum_accepted(*e),
        r matches Ok(fs) ==> {
            &&& fs@.len() == e.variants@.len()
            &&& forall|i: int|
                0 <= i < e.variants@.len() ==> final_matches(
                    m_internal((#[trigger] e.variants@[i]).attrs@, e.attrs@),
                    m_external(e.variants@[i].attrs@, e.attrs@),
                    spec_has_inner(e.variants@[i].attrs@),
                    m_ext_msg(e.variants@[i].attrs@, e.attrs@),
                    m_code(e.variants@[i].attrs@, e.attrs@),
                    fs@[i],
                )
            &&& forall|i: int|
                0 <= i < e.variants@.len() ==> ((#[trigger] fs@[i]).delegate_to_child
                    ==> e.variants@[i].fields == ErrorFields::Unnamed(1usize))
        },
{
    if e.variants.len() == 0 {
        return Err(AttrError::EmptyEnum);
    }
    let parent = match ApiErrorAttrs::parse(&e.attrs) {
        Ok(p) => p,
        Err(err) => {
            return Err(err);
        },
    };
    if parent.inner {
        return Err(AttrError::InnerAtTopLevel);
    }
    let mut finals: Vec<FinalApiErrorAttrs> = Vec::new();
    let mut i: usize = 0;
    while i < e.variants.len()
        invariant
            0 <= i <= e.variants@.len(),
            finals@.len() == i,
            forall|k: int|
                0 <= k < i ==> error_variant_accepted(e.attrs@, #[trigger] e.variants@[k]),
            forall|k: int|
                0 <= k < i ==> final_matches(
                    m_internal((#[trigger] e.variants@[k]).attrs@, e.attrs@),
                    m_external(e.variants@[k].attrs@, e.attrs@),
                    spec_has_inner(e.variants@[k].attrs@),
                    m_ext_msg(e.variants@[k].attrs@, e.attrs@),
                    m_code(e.variants@[k].attrs@, e.attrs@),
                    finals@[k],
                ),
            forall|k: int|
                0 <= k < i ==> ((#[trigger] finals@[k]).delegate_to_child ==> e.variants@[k].fields
                    == ErrorFields::Unnamed(1usize)),
        decreases e.variants@.len() - i,
    {
        let v = &e.variants[i];
        let own = match ApiErrorAttrs::parse(&v.attrs) {
            Ok(p) => p,
            Err(err) => {
                proof {
                    assert(!error_variant_accepted(e.attrs@, e.variants@[i as int]));
                }
                return Err(err);
            },
        };
        let finalised = match own.finalise_with_parent_attrs(&parent) {
            Ok(f) => f,
            Err(err) => {
                proof {
                    // with both attribute lists parseable, the merged
                    // combination cannot conflict
                    assert(attrs_wf(e.attrs@));
                    assert(attrs_wf(e.variants@[i as int].attrs@));
                    assert(false);
                }
                return Err(err);
            },
        };
        if finalised.delegate_to_child {
            let shape_ok = match v.fields {
                ErrorFields::Unnamed(n) => n == 1,
                _ => false,
            };
            if !shape_ok {
                proof {
                    assert(variant_delegates(e.variants@[i as int].attrs@, e.attrs@));
                    assert(!error_variant_accepted(e.attrs@, e.variants@[i as int]));
                }
                return Err(AttrError::DelegationNeedsSingleField);
            }
        }
        proof {
            assert(final_matches(
                m_internal(e.variants@[i as int].attrs@, e.attrs@),
                m_external(e.variants@[i as int].attrs@, e.attrs@),
                spec_has_inner(e.variants@[i as int].attrs@),
                m_ext_msg(e.variants@[i as int].attrs@, e.attrs@),
                m_code(e.variants@[i as int].attrs@, e.attrs@),
                finalised,
            ));
            assert(error_variant_accepted(e.attrs@, e.variants@[i as int]));
        }
        finals.push(finalised);
        i = i + 1;
    }
    Ok(finals)
}

} // verus!
