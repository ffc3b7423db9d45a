//! Typed values of declared types, and their wire encoding: the serializer
//! that the schema derivation must agree with.

use vstd::prelude::*;
use crate::decl::{ApiType, Fields, NamedField, VariantDecl, spec_flatten};
use crate::derive::{
    decl_ok, field_key_names, named_field_ok, names_insert, names_insert_all, no_dup_names,
    record_key_names, rkn_from, spec_enum_tag,
};
use crate::json::{JsonValue, jlookup, jnames_of, lemma_jlookup_by_index, lemma_jlookup_none};

verus! {

/// A value of a declared type. Records and variants hold their field values
/// positionally, in declaration order.
#[derive(Debug, PartialEq, Eq)]
pub enum ApiValue {
    /// The unit value.
    Null,
    /// A boolean.
    Bool(bool),
    /// A number.
    Num(i64),
    /// A string (also a UUID or datetime, carried as text).
    Str(String),
    /// An array or tuple value.
    Arr(Vec<ApiValue>),
    /// A string-keyed map value.
    Dict(Vec<(String, ApiValue)>),
    /// A record value: one value per field, in declaration order.
    Rec(Vec<ApiValue>),
    /// A union value: the variant's index and its field values.
    Var(usize, Vec<ApiValue>),
    /// An absent optional.
    Absent,
    /// A present optional.
    Present(Box<ApiValue>),
}

/// Is the value already plain JSON data? Only such values inhabit the
/// untyped-value type.
pub open spec fn plain(v: ApiValue) -> bool
    decreases v,
{
    match v {
        ApiValue::Null => true,
        ApiValue::Bool(_) => true,
        ApiValue::Num(_) => true,
        ApiValue::Str(_) => true,
        ApiValue::Arr(vs) => forall|i: int| 0 <= i < vs@.len() ==> plain(#[trigger] vs@[i]),
        ApiValue::Dict(es) => forall|i: int| 0 <= i < es@.len() ==> plain(#[trigger] es@[i].1),
        _ => false,
    }
}

/// The names of a map value's entries.
pub open spec fn dict_names(es: Seq<(String, ApiValue)>) -> Seq<Seq<char>> {
    es.map_values(|p: (String, ApiValue)| p.0@)
}

/// Is the value a value of the declared type?
pub open spec fn well_typed(t: ApiType, v: ApiValue) -> bool
    decreases t, 2int,
{
    match t {
        ApiType::Number => v is Num,
        ApiType::Boolean => v is Bool,
        ApiType::Text => v is Str,
        ApiType::Unit => v is Null,
        ApiType::AnyJson => plain(v),
        ApiType::Uuid => v is Str,
        ApiType::DateTime => v is Str,
        ApiType::ArrayOf(inner) => v matches ApiValue::Arr(vs) && (forall|i: int|
            0 <= i < vs@.len() ==> well_typed(*inner, #[trigger] vs@[i])),
        ApiType::Tuple(ts) => {
            &&& v matches ApiValue::Arr(vs)
            &&& vs@.len() == ts@.len()
            &&& forall|i: int| 0 <= i < ts@.len() ==> well_typed(#[trigger] ts@[i], vs@[i])
        },
        ApiType::MapOf(inner) => {
            &&& v matches ApiValue::Dict(es)
            &&& no_dup_names(dict_names(es@))
            &&& forall|i: int| 0 <= i < es@.len() ==> well_typed(*inner, #[trigger] es@[i].1)
        },
        ApiType::Optional(inner) => v is Absent || (v matches ApiValue::Present(b) && well_typed(
            *inner,
            *b,
        )),
        ApiType::Record(d) => v matches ApiValue::Rec(vs) && fields_typed(d.fields, vs@),
        ApiType::Union(e) => {
            &&& v matches ApiValue::Var(idx, vs)
            &&& idx < e.variants@.len()
            &&& fields_typed(e.variants@[idx as int].fields, vs@)
        },
    }
}

/// Are the positional values typed by the field list?
pub open spec fn fields_typed(fields: Fields, vs: Seq<ApiValue>) -> bool
    decreases fields, 1int,
{
    match fields {
        Fields::Unit => vs.len() == 0,
        Fields::Single(f) => vs.len() == 1 && well_typed(f.ty, vs[0]),
        Fields::Unnamed(fs) => vs.len() == fs@.len() && (forall|i: int|
            0 <= i < fs@.len() ==> well_typed((#[trigger] fs@[i]).ty, vs[i])),
        Fields::Named(fs) => vs.len() == fs@.len() && (forall|i: int|
            0 <= i < fs@.len() ==> well_typed((#[trigger] fs@[i]).ty, vs[i])),
    }
}

/// A plain value serializes to the corresponding JSON value, one to one.
pub open spec fn plain_to(v: ApiValue, j: JsonValue) -> bool
    decreases v,
{
    match v {
        ApiValue::Null => j is Null,
        ApiValue::Bool(b) => j matches JsonValue::Bool(b2) && b2 == b,
        ApiValue::Num(n) => j matches JsonValue::Number(n2) && n2 == n,
        ApiValue::Str(s) => j matches JsonValue::String(s2) && s2@ == s@,
        ApiValue::Arr(vs) => {
            &&& j matches JsonValue::Array(js)
            &&& js@.len() == vs@.len()
            &&& forall|i: int| 0 <= i < vs@.len() ==> plain_to(#[trigger] vs@[i], js@[i])
        },
        ApiValue::Dict(es) => {
            &&& j matches JsonValue::Object(entries)
            &&& entries@.len() == es@.len()
            &&& forall|i: int|
                0 <= i < es@.len() ==> (#[trigger] entries@[i]).0@ == es@[i].0@ && plain_to(
                    es@[i].1,
                    entries@[i].1,
                )
        },
        _ => false,
    }
}

/// The wire encoding relation: the value `v` of type `t` serializes to the
/// JSON value `j`. Records with named fields flatten into objects with
/// last-write-wins key merging; unions are tagged or collapse to their
/// variant's name.
pub open spec fn serializes_to(t: ApiType, v: ApiValue, j: JsonValue) -> bool
    decreases t, 3int,
{
    match t {
        ApiType::Number => v matches ApiValue::Num(n) && j matches JsonValue::Number(n2) && n2
            == n,
        ApiType::Boolean => v matches ApiValue::Bool(b) && j matches JsonValue::Bool(b2) && b2
            == b,
        ApiType::Text => v matches ApiValue::Str(s) && j matches JsonValue::String(s2) && s2@
            == s@,
        ApiType::Unit => v is Null && j is Null,
        ApiType::AnyJson => plain_to(v, j),
        ApiType::Uuid => v matches ApiValue::Str(s) && j matches JsonValue::String(s2) && s2@
            == s@,
        ApiType::DateTime => v matches ApiValue::Str(s) && j matches JsonValue::String(s2) && s2@
            == s@,
        ApiType::ArrayOf(inner) => {
            &&& v matches ApiValue::Arr(vs)
            &&& j matches JsonValue::Array(js)
            &&& js@.len() == vs@.len()
            &&& forall|i: int| 0 <= i < vs@.len() ==> serializes_to(*inner, #[trigger] vs@[i], js@[i])
        },
        ApiType::Tuple(ts) => {
            &&& v matches ApiValue::Arr(vs)
            &&& j matches JsonValue::Array(js)
            &&& vs@.len() == ts@.len()
            &&& js@.len() == ts@.len()
            &&& forall|i: int|
                0 <= i < ts@.len() ==> serializes_to(#[trigger] ts@[i], vs@[i], js@[i])
        },
        ApiType::MapOf(inner) => {
            &&& v matches ApiValue::Dict(es)
            &&& j matches JsonValue::Object(entries)
            &&& entries@.len() == es@.len()
            &&& forall|i: int|
                0 <= i < es@.len() ==> (#[trigger] entries@[i]).0@ == es@[i].0@ && serializes_to(
                    *inner,
                    es@[i].1,
                    entries@[i].1,
                )
        },
        ApiType::Optional(inner) => (v is Absent && j is Null) || (v matches ApiValue::Present(b)
            && serializes_to(*inner, *b, j)),
        ApiType::Record(d) => match d.fields {
            Fields::Unit => false,
            Fields::Single(f) => v matches ApiValue::Rec(vs) && vs@.len() == 1 && serializes_to(
                f.ty,
                vs@[0],
                j,
            ),
            Fields::Unnamed(fs) => {
                &&& v matches ApiValue::Rec(vs)
                &&& j matches JsonValue::Array(js)
                &&& vs@.len() == fs@.len()
                &&& js@.len() == fs@.len()
                &&& forall|i: int|
                    0 <= i < fs@.len() ==> serializes_to((#[trigger] fs@[i]).ty, vs@[i], js@[i])
            },
            Fields::Named(fs) => {
                &&& v matches ApiValue::Rec(vs)
                &&& vs@.len() == fs@.len()
                &&& j matches JsonValue::Object(entries)
                &&& jnames_of(entries@) == record_key_names(fs@)
                &&& values_entries_ok(fs@, vs@, entries@, Set::empty())
            },
        },
        ApiType::Union(e) => {
            &&& v matches ApiValue::Var(idx, vs)
            &&& idx < e.variants@.len()
            &&& variant_serializes_to(spec_enum_tag(*e), e.variants@[idx as int], vs@, j)
        },
    }
}

/// One union variant's values serialize to the JSON value: a unit variant to
/// its name as a string, any other to a tagged object.
pub open spec fn variant_serializes_to(
    tag: Seq<char>,
    vd: VariantDecl,
    vs: Seq<ApiValue>,
    j: JsonValue,
) -> bool
    decreases vd, 4int,
{
    match vd.fields {
        Fields::Unit => vs.len() == 0 && (j matches JsonValue::String(s) && s@ == vd.name@),
        Fields::Single(f) => {
            &&& vs.len() == 1
            &&& match f.ty {
                ApiType::Record(d) => match d.fields {
                    Fields::Named(fs) => {
                        &&& vs[0] matches ApiValue::Rec(ivs)
                        &&& ivs@.len() == fs@.len()
                        &&& j matches JsonValue::Object(entries)
                        &&& jnames_of(entries@) == names_insert(record_key_names(fs@), tag)
                        &&& (jlookup(entries@, tag) matches Some(jv) && jv matches JsonValue::String(
                            s,
                        ) && s@ == vd.name@)
                        &&& values_entries_ok(fs@, ivs@, entries@, Set::empty().insert(tag))
                    },
                    _ => false,
                },
                _ => false,
            }
        },
        Fields::Unnamed(_) => false,
        Fields::Named(fs) => {
            &&& vs.len() == fs@.len()
            &&& j matches JsonValue::Object(entries)
            &&& jnames_of(entries@) == rkn_from(seq![tag], fs@)
            &&& (!record_key_names(fs@).contains(tag) ==> (jlookup(entries@, tag) matches Some(jv)
                && jv matches JsonValue::String(s) && s@ == vd.name@))
            &&& values_entries_ok(fs@, vs, entries@, Set::empty())
        },
    }
}

/// Every field's value finds its serialized entry in the object, unless its
/// key is written again by a later field; a flattened field defers to the
/// record value it holds.
pub open spec fn values_entries_ok(
    fields: Seq<NamedField>,
    vs: Seq<ApiValue>,
    entries: Seq<(String, JsonValue)>,
    shadowed: Set<Seq<char>>,
) -> bool
    decreases fields, 2int,
{
    if fields.len() != vs.len() {
        false
    } else if fields.len() == 0 {
        true
    } else {
        let f = fields.last();
        &&& values_entries_ok(
            fields.drop_last(),
            vs.drop_last(),
            entries,
            shadowed.union(field_key_names(f).to_set()),
        )
        &&& value_entry_ok(f, vs.last(), entries, shadowed)
    }
}

/// One field's value finds its entries in the object, unless shadowed.
pub open spec fn value_entry_ok(
    f: NamedField,
    val: ApiValue,
    entries: Seq<(String, JsonValue)>,
    shadowed: Set<Seq<char>>,
) -> bool
    decreases f, 1int,
{
    if !spec_flatten(f.attrs@) {
        shadowed.contains(f.name@) || (jlookup(entries, f.name@) matches Some(jv)
            && serializes_to(f.ty, val, jv))
    } else {
        match f.ty {
            ApiType::Record(d) => match d.fields {
                Fields::Named(fs) => val matches ApiValue::Rec(ivs) && ivs@.len() == fs@.len()
                    && values_entries_ok(fs@, ivs@, entries, shadowed),
                _ => false,
            },
            _ => false,
        }
    }
}

// ---------------------------------------------------------------------------
// Facts about JSON object lookups under insertion.
// ---------------------------------------------------------------------------
proof fn lemma_jlookup_update(entries: Seq<(String, JsonValue)>, i: int, p: (String, JsonValue))
    requires
        0 <= i < entries.len(),
        entries[i].0@ == p.0@,
        forall|j: int| 0 <= j < i ==> entries[j].0@ != p.0@,
    ensures
        jlookup(entries.update(i, p), p.0@) == Some(p.1),
        forall|k: Seq<char>|
            k != p.0@ ==> jlookup(entries.update(i, p), k) == jlookup(entries, k),
    decreases entries.len(),
{
    let u = entries.update(i, p);
    if i == 0 {
        assert(u[0] == p);
        assert(u.drop_first() =~= entries.drop_first());
        assert forall|k: Seq<char>| k != p.0@ implies jlookup(u, k) == jlookup(entries, k) by {
            assert(u[0].0@ == p.0@);
            assert(entries[0].0@ == p.0@);
        }
    } else {
        assert(u[0] == entries[0]);
        assert(u.drop_first() =~= entries.drop_first().update(i - 1, p));
        lemma_jlookup_update(entries.drop_first(), i - 1, p);
        assert(entries[0].0@ != p.0@);
        assert(jlookup(u, p.0@) == Some(p.1));
        assert forall|k: Seq<char>| k != p.0@ implies jlookup(u, k) == jlookup(entries, k) by {
            if entries[0].0@ == k {
            } else {
                assert(jlookup(u, k) == jlookup(u.drop_first(), k));
                assert(jlookup(entries, k) == jlookup(entries.drop_first(), k));
            }
        }
    }
}

proof fn lemma_jlookup_push(entries: Seq<(String, JsonValue)>, p: (String, JsonValue), k: Seq<
    char,
>)
    ensures
        jlookup(entries.push(p), k) == (if jlookup(entries, k) is Some {
            jlookup(entries, k)
        } else if p.0@ == k {
            Some(p.1)
        } else {
            None::<JsonValue>
        }),
    decreases entries.len(),
{
    let u = entries.push(p);
    if entries.len() == 0 {
        assert(u[0] == p);
        assert(u.drop_first() =~= Seq::<(String, JsonValue)>::empty());
        assert(jlookup(entries, k) is None);
        if p.0@ != k {
            assert(jlookup(u, k) == jlookup(u.drop_first(), k));
            assert(jlookup(u.drop_first(), k) is None);
        }
    } else {
        assert(u[0] == entries[0]);
        assert(u.drop_first() =~= entries.drop_first().push(p));
        lemma_jlookup_push(entries.drop_first(), p, k);
        if entries[0].0@ == k {
            assert(jlookup(u, k) == Some(entries[0].1));
            assert(jlookup(entries, k) == Some(entries[0].1));
        } else {
            assert(jlookup(u, k) == jlookup(entries.drop_first().push(p), k));
            assert(jlookup(entries, k) == jlookup(entries.drop_first(), k));
        }
    }
}

/// The value-entry relation only inspects lookups of merged, unshadowed
/// keys, and a larger shadow set only weakens it.
proof fn lemma_values_congruence(
    fields: Seq<NamedField>,
    vs: Seq<ApiValue>,
    keys_a: Seq<(String, JsonValue)>,
    keys_b: Seq<(String, JsonValue)>,
    sh_a: Set<Seq<char>>,
    sh_b: Set<Seq<char>>,
)
    requires
        values_entries_ok(fields, vs, keys_a, sh_a),
        sh_a.subset_of(sh_b),
        forall|k: Seq<char>|
            record_key_names(fields).contains(k) && !sh_b.contains(k) ==> jlookup(keys_a, k)
                == jlookup(keys_b, k),
    ensures
        values_entries_ok(fields, vs, keys_b, sh_b),
    decreases fields, 1int,
{
    if fields.len() > 0 {
        let f = fields.last();
        let fk = field_key_names(f).to_set();
        assert forall|k: Seq<char>|
            record_key_names(fields.drop_last()).contains(k) && !sh_b.union(fk).contains(
                k,
            ) implies jlookup(keys_a, k) == jlookup(keys_b, k) by {
            assert(record_key_names(fields) == names_insert_all(
                record_key_names(fields.drop_last()),
                field_key_names(f),
            ));
            crate::derive::lemma_nia_contains(
                record_key_names(fields.drop_last()),
                field_key_names(f),
                k,
            );
        }
        lemma_values_congruence(
            fields.drop_last(),
            vs.drop_last(),
            keys_a,
            keys_b,
            sh_a.union(fk),
            sh_b.union(fk),
        );
        assert forall|k: Seq<char>|
            field_key_names(f).contains(k) && !sh_b.contains(k) implies jlookup(keys_a, k)
            == jlookup(keys_b, k) by {
            assert(record_key_names(fields) == names_insert_all(
                record_key_names(fields.drop_last()),
                field_key_names(f),
            ));
            crate::derive::lemma_nia_contains(
                record_key_names(fields.drop_last()),
                field_key_names(f),
                k,
            );
        }
        lemma_value_entry_congruence(f, vs.last(), keys_a, keys_b, sh_a, sh_b);
    }
}

proof fn lemma_value_entry_congruence(
    f: NamedField,
    val: ApiValue,
    keys_a: Seq<(String, JsonValue)>,
    keys_b: Seq<(String, JsonValue)>,
    sh_a: Set<Seq<char>>,
    sh_b: Set<Seq<char>>,
)
    requires
        value_entry_ok(f, val, keys_a, sh_a),
        sh_a.subset_of(sh_b),
        forall|k: Seq<char>|
            field_key_names(f).contains(k) && !sh_b.contains(k) ==> jlookup(keys_a, k) == jlookup(
                keys_b,
                k,
            ),
    ensures
        value_entry_ok(f, val, keys_b, sh_b),
    decreases f, 0int,
{
    if !spec_flatten(f.attrs@) {
        assert(field_key_names(f).contains(f.name@)) by {
            assert(field_key_names(f)[0] == f.name@);
        }
    } else {
        match f.ty {
            ApiType::Record(d) => match d.fields {
                Fields::Named(fs) => match val {
                    ApiValue::Rec(ivs) => {
                        lemma_values_congruence(fs@, ivs@, keys_a, keys_b, sh_a, sh_b);
                    },
                    _ => {},
                },
                _ => {},
            },
            _ => {},
        }
    }
}

// ---------------------------------------------------------------------------
// The executable serializer.
// ---------------------------------------------------------------------------
/// A reason serialization is refused: the value does not inhabit the
/// declared type, or the declaration itself is malformed.
#[derive(Debug, PartialEq, Eq, Clone, Copy)]
pub enum SerializeError {
    /// The value does not fit the declared type.
    TypeMismatch,
    /// The declaration is one that registration rejects.
    InvalidDeclaration,
}

/// Insert an entry into a JSON object with map semantics: a present name
/// keeps its position and takes the new value; an absent one is appended.
#[verifier::loop_isolation(false)]
fn jobject_insert(entries: &mut Vec<(String, JsonValue)>, name: String, val: JsonValue)
    ensures
        jnames_of(final(entries)@) == names_insert(jnames_of(old(entries)@), name@),
        jlookup(final(entries)@, name@) == Some(val),
        forall|k: Seq<char>|
            k != name@ ==> jlookup(final(entries)@, k) == jlookup(old(entries)@, k),
{
    let ghost name_view = name@;
    let ghost before = entries@;
    let mut i: usize = 0;
    while i < entries.len()
        invariant
            0 <= i <= entries@.len(),
            entries@ == before,
            forall|j: int| 0 <= j < i ==> jnames_of(before)[j] != name_view,
            name@ == name_view,
        decreases entries@.len() - i,
    {
        if entries[i].0.eq(&name) {
            proof {
                assert(jnames_of(before)[i as int] == before[i as int].0@);
                assert(forall|j: int|
                    0 <= j < before.len() ==> jnames_of(before)[j] == before[j].0@);
            }
            let ghost p = (name, val);
            entries.remove(i);
            entries.insert(i, (name, val));
            proof {
                assert(p.0@ == name_view);
                assert(before[i as int].0@ == name_view);
                assert forall|j: int| 0 <= j < i as int implies before[j].0@ != p.0@ by {
                    assert(jnames_of(before)[j] == before[j].0@);
                    assert(jnames_of(before)[j] != name_view);
                }
                assert(entries@ =~= before.update(i as int, p));
                lemma_jlookup_update(before, i as int, p);
                assert(jnames_of(entries@) =~= jnames_of(before));
                assert(jnames_of(before).contains(name_view)) by {
                    assert(jnames_of(before)[i as int] == name_view);
                }
            }
            return ;
        }
        proof {
            assert(jnames_of(before)[i as int] == before[i as int].0@);
        }
        i = i + 1;
    }
    let ghost p = (name, val);
    entries.push((name, val));
    proof {
        assert(entries@ =~= before.push(p));
        lemma_jlookup_push(before, p, name_view);
        lemma_jlookup_none(before, name_view);
        assert(!jnames_of(before).contains(name_view)) by {
            if jnames_of(before).contains(name_view) {
                let j = choose|j: int|
                    0 <= j < jnames_of(before).len() && jnames_of(before)[j] == name_view;
                assert(jnames_of(before)[j] != name_view);
            }
        }
        assert(jnames_of(entries@) =~= jnames_of(before).push(name_view));
        assert forall|k: Seq<char>| k != name_view implies jlookup(entries@, k) == jlookup(
            before,
            k,
        ) by {
            lemma_jlookup_push(before, p, k);
            lemma_jlookup_none(before, k);
        }
    }
}

/// Insert every entry of `more`, in order.
#[verifier::loop_isolation(false)]
fn jobject_insert_all(entries: &mut Vec<(String, JsonValue)>, more: Vec<(String, JsonValue)>)
    requires
        no_dup_names(jnames_of(more@)),
    ensures
        jnames_of(final(entries)@) == names_insert_all(jnames_of(old(entries)@), jnames_of(more@)),
        forall|k: Seq<char>|
            jnames_of(more@).contains(k) ==> jlookup(final(entries)@, k) == jlookup(more@, k),
        forall|k: Seq<char>|
            !jnames_of(more@).contains(k) ==> jlookup(final(entries)@, k) == jlookup(
                old(entries)@,
                k,
            ),
{
    let ghost before = old(entries)@;
    let ghost m0 = more@;
    let mut rest = more;
    let ghost mut j: int = 0;
    while rest.len() > 0
        invariant
            0 <= j <= m0.len(),
            rest@ =~= m0.subrange(j, m0.len() as int),
            no_dup_names(jnames_of(m0)),
            jnames_of(entries@) == names_insert_all(jnames_of(before), jnames_of(m0.subrange(0, j))),
            forall|k: Seq<char>|
                jnames_of(m0.subrange(0, j)).contains(k) ==> jlookup(entries@, k) == jlookup(
                    m0,
                    k,
                ),
            forall|k: Seq<char>|
                !jnames_of(m0.subrange(0, j)).contains(k) ==> jlookup(entries@, k) == jlookup(
                    before,
                    k,
                ),
        decreases rest@.len(),
    {
        let p = rest.remove(0);
        proof {
            assert(p == m0[j]);
            assert(rest@ =~= m0.subrange(j + 1, m0.len() as int));
        }
        let ghost pname = p.0@;
        jobject_insert(entries, p.0, p.1);
        proof {
            let pre = m0.subrange(0, j);
            let nxt = m0.subrange(0, j + 1);
            assert(nxt.drop_last() =~= pre);
            assert(nxt.last() == m0[j]);
            assert(jnames_of(nxt) =~= jnames_of(pre).push(pname));
            assert(jnames_of(nxt).drop_last() =~= jnames_of(pre));
            assert(names_insert_all(jnames_of(before), jnames_of(nxt)) == names_insert(
                names_insert_all(jnames_of(before), jnames_of(pre)),
                pname,
            )) by {
                assert(jnames_of(nxt).last() == pname);
            }
            lemma_jlookup_by_index(m0, j);
            assert(jlookup(m0, pname) == Some(m0[j].1));
            assert forall|k: Seq<char>| jnames_of(nxt).contains(k) implies jlookup(entries@, k)
                == jlookup(m0, k) by {
                crate::derive::lemma_push_contains(jnames_of(pre), pname, k);
                if k == pname {
                } else {
                    assert(jnames_of(pre).contains(k));
                }
            }
            assert forall|k: Seq<char>| !jnames_of(nxt).contains(k) implies jlookup(entries@, k)
                == jlookup(before, k) by {
                crate::derive::lemma_push_contains(jnames_of(pre), pname, k);
                assert(k != pname);
                assert(!jnames_of(pre).contains(k));
            }
            j = j + 1;
        }
    }
    proof {
        assert(m0.subrange(0, j) =~= m0);
    }
}

/// Is the flatten marker among the attributes?
fn has_flatten(attrs: &Vec<crate::decl::BodyAttr>) -> (r: bool)
    ensures
        r == spec_flatten(attrs@),
{
    let mut i: usize = 0;
    while i < attrs.len()
        invariant
            0 <= i <= attrs@.len(),
            forall|j: int| 0 <= j < i ==> !((#[trigger] attrs@[j]) is Flatten),
        decreases attrs@.len() - i,
    {
        match &attrs[i] {
            crate::decl::BodyAttr::Flatten => {
                assert(spec_flatten(attrs@)) by {
                    assert(attrs@[i as int] is Flatten);
                }
                return true;
            },
            _ => {},
        }
        i = i + 1;
    }
    false
}

/// The discriminant key of a union's attribute list: the declared tag, or
/// "kind" by default.
fn enum_tag(attrs: &Vec<crate::decl::BodyAttr>) -> (r: String)
    ensures
        (crate::decl::spec_tag(attrs@) matches Some(t) && r@ == t) || (crate::decl::spec_tag(
            attrs@,
        ) is None && r@ == "kind"@),
{
    let mut tag: Option<String> = None;
    let mut i: usize = 0;
    while i < attrs.len()
        invariant
            0 <= i <= attrs@.len(),
            (tag matches Some(t) && crate::decl::spec_tag(attrs@.subrange(0, i as int))
                matches Some(s) && t@ == s) || (tag is None && crate::decl::spec_tag(
                attrs@.subrange(0, i as int),
            ) is None),
        decreases attrs@.len() - i,
    {
        let ghost prefix = attrs@.subrange(0, i as int);
        let ghost next = attrs@.subrange(0, i + 1 as int);
        proof {
            assert(next.drop_last() =~= prefix);
            assert(next.last() == attrs@[i as int]);
        }
        match &attrs[i] {
            crate::decl::BodyAttr::Tag(t) => {
                tag = Some(t.clone());
            },
            _ => {},
        }
        i = i + 1;
    }
    proof {
        assert(attrs@.subrange(0, attrs@.len() as int) =~= attrs@);
    }
    match tag {
        Some(t) => t,
        None => String::from_str("kind"),
    }
}

/// Serialize an untyped value: the one-to-one copy into JSON.
#[verifier::loop_isolation(false)]
fn serialize_plain(v: &ApiValue) -> (r: Result<JsonValue, SerializeError>)
    ensures
        plain(*v) ==> r is Ok,
        r matches Ok(j) ==> plain_to(*v, j),
    decreases *v,
{
    match v {
        ApiValue::Null => Ok(JsonValue::Null),
        ApiValue::Bool(b) => Ok(JsonValue::Bool(*b)),
        ApiValue::Num(n) => Ok(JsonValue::Number(*n)),
        ApiValue::Str(s) => Ok(JsonValue::String(s.clone())),
        ApiValue::Arr(vs) => {
            let mut js: Vec<JsonValue> = Vec::new();
            let mut i: usize = 0;
            while i < vs.len()
                invariant
                    0 <= i <= vs@.len(),
                    js@.len() == i,
                    forall|j: int| 0 <= j < i ==> plain_to(vs@[j], #[trigger] js@[j]),
                decreases vs@.len() - i,
            {
                let jv = match serialize_plain(&vs[i]) {
                    Ok(jv) => jv,
                    Err(e) => {
                        proof {
                            assert(!plain(vs@[i as int]));
                        }
                        return Err(e);
                    },
                };
                js.push(jv);
                i = i + 1;
            }
            Ok(JsonValue::Array(js))
        },
        ApiValue::Dict(es) => {
            let mut js: Vec<(String, JsonValue)> = Vec::new();
            let mut i: usize = 0;
            while i < es.len()
                invariant
                    0 <= i <= es@.len(),
                    js@.len() == i,
                    forall|j: int|
                        0 <= j < i ==> (#[trigger] js@[j]).0@ == es@[j].0@ && plain_to(
                            es@[j].1,
                            js@[j].1,
                        ),
                decreases es@.len() - i,
            {
                let jv = match serialize_plain(&es[i].1) {
                    Ok(jv) => jv,
                    Err(e) => {
                        proof {
                            assert(!plain(es@[i as int].1));
                        }
                        return Err(e);
                    },
                };
                js.push((es[i].0.clone(), jv));
                i = i + 1;
            }
            Ok(JsonValue::Object(js))
        },
        _ => Err(SerializeError::TypeMismatch),
    }
}

/// After one field's entries were folded in: keys outside the merged names
/// are untouched.
proof fn lemma_jstep_lookup(
    init_view: Seq<(String, JsonValue)>,
    prefix: Seq<NamedField>,
    f: NamedField,
    next: Seq<NamedField>,
    before: Seq<(String, JsonValue)>,
    after: Seq<(String, JsonValue)>,
)
    requires
        next.drop_last() == prefix,
        next.last() == f,
        next.len() == prefix.len() + 1,
        forall|k: Seq<char>|
            !record_key_names(prefix).contains(k) ==> jlookup(before, k) == jlookup(init_view, k),
        forall|k: Seq<char>|
            !field_key_names(f).contains(k) ==> jlookup(after, k) == jlookup(before, k),
    ensures
        forall|k: Seq<char>|
            !record_key_names(next).contains(k) ==> jlookup(after, k) == jlookup(init_view, k),
{
    assert forall|k: Seq<char>| !record_key_names(next).contains(k) implies jlookup(after, k)
        == jlookup(init_view, k) by {
        assert(record_key_names(next) == names_insert_all(
            record_key_names(prefix),
            field_key_names(f),
        ));
        crate::derive::lemma_nia_contains(record_key_names(prefix), field_key_names(f), k);
        assert(!record_key_names(prefix).contains(k));
        assert(!field_key_names(f).contains(k));
    }
}

/// Serialize the values of a list of named fields into object entries,
/// starting from the already-present entries `init` (a pre-seeded tag).
/// Later writes win, so flattened keys merge exactly as the schema says.
#[verifier::loop_isolation(false)]
#[verifier::rlimit(50)]
fn serialize_named_fields(
    fields: &Vec<NamedField>,
    vs: &Vec<ApiValue>,
    init: Vec<(String, JsonValue)>,
) -> (r: Result<Vec<(String, JsonValue)>, SerializeError>)
    ensures
        (vs@.len() == fields@.len() && (forall|i: int|
            0 <= i < fields@.len() ==> crate::derive::named_field_ok(#[trigger] fields@[i])) && (
        forall|i: int|
            0 <= i < fields@.len() ==> well_typed((#[trigger] fields@[i]).ty, vs@[i]))) ==> r
            is Ok,
        r matches Ok(entries) ==> {
            &&& vs@.len() == fields@.len()
            &&& jnames_of(entries@) == rkn_from(jnames_of(init@), fields@)
            &&& values_entries_ok(fields@, vs@, entries@, Set::empty())
            &&& forall|k: Seq<char>|
                !record_key_names(fields@).contains(k) ==> jlookup(entries@, k) == jlookup(
                    init@,
                    k,
                )
        },
    decreases fields@, 0int,
{
    if vs.len() != fields.len() {
        return Err(SerializeError::TypeMismatch);
    }
    let ghost init_view = init@;
    let mut acc = init;
    let mut i: usize = 0;
    while i < fields.len()
        invariant
            0 <= i <= fields@.len(),
            vs@.len() == fields@.len(),
            jnames_of(acc@) == rkn_from(jnames_of(init_view), fields@.subrange(0, i as int)),
            values_entries_ok(
                fields@.subrange(0, i as int),
                vs@.subrange(0, i as int),
                acc@,
                Set::empty(),
            ),
            forall|k: Seq<char>|
                !record_key_names(fields@.subrange(0, i as int)).contains(k) ==> jlookup(acc@, k)
                    == jlookup(init_view, k),
        decreases fields@.len() - i,
    {
        let ghost prefix = fields@.subrange(0, i as int);
        let ghost vprefix = vs@.subrange(0, i as int);
        let ghost next = fields@.subrange(0, i + 1 as int);
        let ghost vnext = vs@.subrange(0, i + 1 as int);
        let ghost fg = fields@[i as int];
        proof {
            assert(next.drop_last() =~= prefix);
            assert(next.last() == fg);
            assert(vnext.drop_last() =~= vprefix);
            assert(vnext.last() == vs@[i as int]);
        }
        let f = &fields[i];
        let ghost before = acc@;
        if has_flatten(&f.attrs) {
            let inner_fs = match &f.ty {
                ApiType::Record(d) => match &d.fields {
                    Fields::Named(fs) => fs,
                    _ => {
                        proof {
                            assert(!crate::derive::named_field_ok(fg));
                        }
                        return Err(SerializeError::InvalidDeclaration);
                    },
                },
                _ => {
                    proof {
                        assert(!crate::derive::named_field_ok(fg));
                    }
                    return Err(SerializeError::InvalidDeclaration);
                },
            };
            let ivs = match &vs[i] {
                ApiValue::Rec(ivs) => ivs,
                _ => {
                    proof {
                        assert(!well_typed(fg.ty, vs@[i as int]));
                    }
                    return Err(SerializeError::TypeMismatch);
                },
            };
            let sub = match serialize_named_fields(inner_fs, ivs, Vec::new()) {
                Ok(sub) => sub,
                Err(e) => {
                    proof {
                        if crate::derive::named_field_ok(fg) && well_typed(
                            fg.ty,
                            vs@[i as int],
                        ) {
                            assert(crate::derive::decl_ok(fg.ty));
                            assert(forall|j: int|
                                0 <= j < inner_fs@.len() ==> crate::derive::named_field_ok(
                                    #[trigger] inner_fs@[j],
                                ));
                            assert(fields_typed(Fields::Named(*inner_fs), ivs@));
                            assert(forall|j: int|
                                0 <= j < inner_fs@.len() ==> well_typed(
                                    (#[trigger] inner_fs@[j]).ty,
                                    ivs@[j],
                                ));
                            assert(false);
                        }
                    }
                    return Err(e);
                },
            };
            let ghost sub_entries = sub@;
            proof {
                assert(jnames_of(Seq::<(String, JsonValue)>::empty()) =~= Seq::<Seq<char>>::empty());
                assert(jnames_of(sub_entries) == record_key_names(inner_fs@));
                assert(field_key_names(fg) == record_key_names(inner_fs@));
                crate::derive::lemma_rkn_no_dup(Seq::empty(), inner_fs@);
            }
            jobject_insert_all(&mut acc, sub);
            proof {
                crate::derive::lemma_step_names(jnames_of(init_view), prefix, fg, next);
                assert(jnames_of(acc@) == rkn_from(jnames_of(init_view), next));
                assert forall|k: Seq<char>|
                    record_key_names(prefix).contains(k) && !Set::empty().union(
                        field_key_names(fg).to_set(),
                    ).contains(k) implies jlookup(before, k) == jlookup(acc@, k) by {}
                lemma_values_congruence(
                    prefix,
                    vprefix,
                    before,
                    acc@,
                    Set::empty(),
                    Set::empty().union(field_key_names(fg).to_set()),
                );
                lemma_values_congruence(
                    inner_fs@,
                    ivs@,
                    sub_entries,
                    acc@,
                    Set::empty(),
                    Set::empty(),
                );
                assert(value_entry_ok(fg, vs@[i as int], acc@, Set::empty()));
                assert(values_entries_ok(next, vnext, acc@, Set::empty()));
                lemma_jstep_lookup(init_view, prefix, fg, next, before, acc@);
            }
        } else {
            let jv = match serialize_value(&f.ty, &vs[i]) {
                Ok(jv) => jv,
                Err(e) => {
                    proof {
                        if crate::derive::named_field_ok(fg) && well_typed(
                            fg.ty,
                            vs@[i as int],
                        ) {
                            assert(false);
                        }
                    }
                    return Err(e);
                },
            };
            jobject_insert(&mut acc, f.name.clone(), jv);
            proof {
                assert(field_key_names(fg) == seq![fg.name@]);
                crate::derive::lemma_step_names(jnames_of(init_view), prefix, fg, next);
                assert(names_insert_all(jnames_of(before), seq![fg.name@]) == names_insert(
                    jnames_of(before),
                    fg.name@,
                )) by {
                    assert(seq![fg.name@].drop_last() =~= Seq::<Seq<char>>::empty());
                    assert(seq![fg.name@].last() == fg.name@);
                    assert(names_insert_all(jnames_of(before), Seq::<Seq<char>>::empty())
                        == jnames_of(before));
                }
                assert(jnames_of(acc@) == rkn_from(jnames_of(init_view), next));
                assert forall|k: Seq<char>|
                    record_key_names(prefix).contains(k) && !Set::empty().union(
                        field_key_names(fg).to_set(),
                    ).contains(k) implies jlookup(before, k) == jlookup(acc@, k) by {
                    assert(field_key_names(fg).to_set().contains(fg.name@)) by {
                        assert(field_key_names(fg)[0] == fg.name@);
                    }
                    assert(k != fg.name@);
                }
                lemma_values_congruence(
                    prefix,
                    vprefix,
                    before,
                    acc@,
                    Set::empty(),
                    Set::empty().union(field_key_names(fg).to_set()),
                );
                assert(value_entry_ok(fg, vs@[i as int], acc@, Set::empty()));
                assert(values_entries_ok(next, vnext, acc@, Set::empty()));
                lemma_jstep_lookup(init_view, prefix, fg, next, before, acc@);
            }
        }
        i = i + 1;
    }
    proof {
        assert(fields@.subrange(0, fields@.len() as int) =~= fields@);
        assert(vs@.subrange(0, vs@.len() as int) =~= vs@);
    }
    Ok(acc)
}

/// Serialize a typed value to its JSON wire form. Succeeds on every value of
/// an accepted declaration; the result is pinned by `serializes_to`, so it
/// agrees with the schema the declaration derives.
#[verifier::loop_isolation(false)]
#[verifier::rlimit(100)]
pub fn serialize_value(t: &ApiType, v: &ApiValue) -> (r: Result<JsonValue, SerializeError>)
    ensures
        crate::derive::decl_ok(*t) && well_typed(*t, *v) ==> r is Ok,
        r matches Ok(j) ==> serializes_to(*t, *v, j),
    decreases *t, 1int,
{
    match t {
        ApiType::Number => match v {
            ApiValue::Num(n) => Ok(JsonValue::Number(*n)),
            _ => {
                proof {
                    if crate::derive::decl_ok(*t) && well_typed(*t, *v) {
                        assert(false);
                    }
                }
                Err(SerializeError::TypeMismatch)
            },
        },
        ApiType::Boolean => match v {
            ApiValue::Bool(b) => Ok(JsonValue::Bool(*b)),
            _ => {
                proof {
                    if crate::derive::decl_ok(*t) && well_typed(*t, *v) {
                        assert(false);
                    }
                }
                Err(SerializeError::TypeMismatch)
            },
        },
        ApiType::Text => match v {
            ApiValue::Str(s) => Ok(JsonValue::String(s.clone())),
            _ => {
                proof {
                    if crate::derive::decl_ok(*t) && well_typed(*t, *v) {
                        assert(false);
                    }
                }
                Err(SerializeError::TypeMismatch)
            },
        },
        ApiType::Unit => match v {
            ApiValue::Null => Ok(JsonValue::Null),
            _ => {
                proof {
                    if crate::derive::decl_ok(*t) && well_typed(*t, *v) {
                        assert(false);
                    }
                }
                Err(SerializeError::TypeMismatch)
            },
        },
        ApiType::AnyJson => {
            let rr = serialize_plain(v);
            proof {
                if crate::derive::decl_ok(*t) && well_typed(*t, *v) {
                    assert(plain(*v));
                    assert(rr is Ok);
                }
            }
            rr
        },
        ApiType::Uuid => match v {
            ApiValue::Str(s) => Ok(JsonValue::String(s.clone())),
            _ => {
                proof {
                    if crate::derive::decl_ok(*t) && well_typed(*t, *v) {
                        assert(false);
                    }
                }
                Err(SerializeError::TypeMismatch)
            },
        },
        ApiType::DateTime => match v {
            ApiValue::Str(s) => Ok(JsonValue::String(s.clone())),
            _ => {
                proof {
                    if crate::derive::decl_ok(*t) && well_typed(*t, *v) {
                        assert(false);
                    }
                }
                Err(SerializeError::TypeMismatch)
            },
        },
        ApiType::ArrayOf(inner) => match v {
            ApiValue::Arr(vs) => {
                let mut js: Vec<JsonValue> = Vec::new();
                let mut i: usize = 0;
                while i < vs.len()
                    invariant
                        0 <= i <= vs@.len(),
                        js@.len() == i,
                        forall|j: int|
                            0 <= j < i ==> serializes_to(**inner, vs@[j], #[trigger] js@[j]),
                    decreases vs@.len() - i,
                {
                    let jv = match serialize_value(inner, &vs[i]) {
                        Ok(jv) => jv,
                        Err(e) => {
                            proof {
                                assert(!(crate::derive::decl_ok(**inner) && well_typed(
                                    **inner,
                                    vs@[i as int],
                                )));
                            }
                            return Err(e);
                        },
                    };
                    js.push(jv);
                    i = i + 1;
                }
                Ok(JsonValue::Array(js))
            },
            _ => {
                proof {
                    if crate::derive::decl_ok(*t) && well_typed(*t, *v) {
                        assert(false);
                    }
                }
                Err(SerializeError::TypeMismatch)
            },
        },
        ApiType::Tuple(ts) => match v {
            ApiValue::Arr(vs) => {
                if vs.len() != ts.len() {
                    return Err(SerializeError::TypeMismatch);
                }
                let mut js: Vec<JsonValue> = Vec::new();
                let mut i: usize = 0;
                while i < ts.len()
                    invariant
                        0 <= i <= ts@.len(),
                        vs@.len() == ts@.len(),
                        js@.len() == i,
                        forall|j: int|
                            0 <= j < i ==> serializes_to(ts@[j], vs@[j], #[trigger] js@[j]),
                    decreases ts@.len() - i,
                {
                    let jv = match serialize_value(&ts[i], &vs[i]) {
                        Ok(jv) => jv,
                        Err(e) => {
                            proof {
                                assert(!(crate::derive::decl_ok(ts@[i as int]) && well_typed(
                                    ts@[i as int],
                                    vs@[i as int],
                                )));
                            }
                            return Err(e);
                        },
                    };
                    js.push(jv);
                    i = i + 1;
                }
                Ok(JsonValue::Array(js))
            },
            _ => {
                proof {
                    if crate::derive::decl_ok(*t) && well_typed(*t, *v) {
                        assert(false);
                    }
                }
                Err(SerializeError::TypeMismatch)
            },
        },
        ApiType::MapOf(inner) => match v {
            ApiValue::Dict(es) => {
                let mut js: Vec<(String, JsonValue)> = Vec::new();
                let mut i: usize = 0;
                while i < es.len()
                    invariant
                        0 <= i <= es@.len(),
                        js@.len() == i,
                        forall|j: int|
                            0 <= j < i ==> (#[trigger] js@[j]).0@ == es@[j].0@ && serializes_to(
                                **inner,
                                es@[j].1,
                                js@[j].1,
                            ),
                    decreases es@.len() - i,
                {
                    let jv = match serialize_value(inner, &es[i].1) {
                        Ok(jv) => jv,
                        Err(e) => {
                            proof {
                                assert(!(crate::derive::decl_ok(**inner) && well_typed(
                                    **inner,
                                    es@[i as int].1,
                                )));
                            }
                            return Err(e);
                        },
                    };
                    js.push((es[i].0.clone(), jv));
                    i = i + 1;
                }
                Ok(JsonValue::Object(js))
            },
            _ => {
                proof {
                    if crate::derive::decl_ok(*t) && well_typed(*t, *v) {
                        assert(false);
                    }
                }
                Err(SerializeError::TypeMismatch)
            },
        },
        ApiType::Optional(inner) => match v {
            ApiValue::Absent => Ok(JsonValue::Null),
            ApiValue::Present(b) => {
                let rr = serialize_value(inner, b);
                proof {
                    if crate::derive::decl_ok(*t) && well_typed(*t, *v) {
                        assert(well_typed(**inner, **b));
                        assert(rr is Ok);
                    }
                }
                rr
            },
            _ => {
                proof {
                    if crate::derive::decl_ok(*t) && well_typed(*t, *v) {
                        assert(false);
                    }
                }
                Err(SerializeError::TypeMismatch)
            },
        },
        ApiType::Record(d) => match v {
            ApiValue::Rec(vs) => match &d.fields {
                Fields::Unit => {
                    proof {
                        if crate::derive::decl_ok(*t) && well_typed(*t, *v) {
                            assert(false);
                        }
                    }
                    Err(SerializeError::InvalidDeclaration)
                },
                Fields::Single(f) => {
                    if vs.len() != 1 {
                        proof {
                            if crate::derive::decl_ok(*t) && well_typed(*t, *v) {
                                assert(fields_typed(Fields::Single(*f), vs@));
                                assert(false);
                            }
                        }
                        return Err(SerializeError::TypeMismatch);
                    }
                    let rr = serialize_value(&f.ty, &vs[0]);
                    proof {
                        if crate::derive::decl_ok(*t) && well_typed(*t, *v) {
                            assert(crate::derive::field_ok(*f));
                            assert(fields_typed(Fields::Single(*f), vs@));
                            assert(well_typed(f.ty, vs@[0]));
                            assert(rr is Ok);
                        }
                    }
                    rr
                },
                Fields::Unnamed(fs) => {
                    if vs.len() != fs.len() {
                        proof {
                            if crate::derive::decl_ok(*t) && well_typed(*t, *v) {
                                assert(fields_typed(Fields::Unnamed(*fs), vs@));
                                assert(false);
                            }
                        }
                        return Err(SerializeError::TypeMismatch);
                    }
                    let mut js: Vec<JsonValue> = Vec::new();
                    let mut i: usize = 0;
                    while i < fs.len()
                        invariant
                            0 <= i <= fs@.len(),
                            vs@.len() == fs@.len(),
                            js@.len() == i,
                            forall|j: int|
                                0 <= j < i ==> serializes_to(
                                    fs@[j].ty,
                                    vs@[j],
                                    #[trigger] js@[j],
                                ),
                        decreases fs@.len() - i,
                    {
                        let jv = match serialize_value(&fs[i].ty, &vs[i]) {
                            Ok(jv) => jv,
                            Err(e) => {
                                proof {
                                    if crate::derive::decl_ok(*t) && well_typed(*t, *v) {
                                        assert(fields_typed(Fields::Unnamed(*fs), vs@));
                                        assert(crate::derive::field_ok(fs@[i as int]));
                                        assert(well_typed(fs@[i as int].ty, vs@[i as int]));
                                        assert(false);
                                    }
                                }
                                return Err(e);
                            },
                        };
                        js.push(jv);
                        i = i + 1;
                    }
                    Ok(JsonValue::Array(js))
                },
                Fields::Named(fs) => {
                    let entries = match serialize_named_fields(fs, vs, Vec::new()) {
                        Ok(es) => es,
                        Err(e) => {
                            proof {
                                if crate::derive::decl_ok(*t) && well_typed(*t, *v) {
                                    assert(fields_typed(Fields::Named(*fs), vs@));
                                    assert(false);
                                }
                            }
                            return Err(e);
                        },
                    };
                    proof {
                        assert(jnames_of(Seq::<(String, JsonValue)>::empty())
                            =~= Seq::<Seq<char>>::empty());
                    }
                    Ok(JsonValue::Object(entries))
                },
            },
            _ => {
                proof {
                    if crate::derive::decl_ok(*t) && well_typed(*t, *v) {
                        assert(false);
                    }
                }
                Err(SerializeError::TypeMismatch)
            },
        },
        ApiType::Union(e) => match v {
            ApiValue::Var(idx, vs) => {
                let variants = &e.variants;
                if *idx >= variants.len() {
                    proof {
                        if crate::derive::decl_ok(*t) && well_typed(*t, *v) {
                            assert(false);
                        }
                    }
                    return Err(SerializeError::TypeMismatch);
                }
                let vd = &variants[*idx];
                let tag = enum_tag(&e.attrs);
                let ghost tag_view = spec_enum_tag(**e);
                proof {
                    assert(tag@ == tag_view);
                }
                match &vd.fields {
                    Fields::Unit => {
                        if vs.len() != 0 {
                            proof {
                                if crate::derive::decl_ok(*t) && well_typed(*t, *v) {
                                    assert(fields_typed(e.variants@[*idx as int].fields, vs@));
                                    assert(false);
                                }
                            }
                            return Err(SerializeError::TypeMismatch);
                        }
                        let result = JsonValue::String(vd.name.clone());
                        proof {
                            assert(variant_serializes_to(
                                tag_view,
                                e.variants@[*idx as int],
                                vs@,
                                result,
                            ));
                            assert(serializes_to(*t, *v, result));
                            if crate::derive::decl_ok(*t) && well_typed(*t, *v) {
                                assert(crate::derive::variant_ok(e.variants@[*idx as int]));
                            }
                        }
                        Ok(result)
                    },
                    Fields::Single(f) => {
                        if vs.len() != 1 {
                            proof {
                                if crate::derive::decl_ok(*t) && well_typed(*t, *v) {
                                    assert(fields_typed(e.variants@[*idx as int].fields, vs@));
                                    assert(fields_typed(Fields::Single(*f), vs@));
                                    assert(false);
                                }
                            }
                            return Err(SerializeError::TypeMismatch);
                        }
                        let inner_fs = match &f.ty {
                            ApiType::Record(dd) => match &dd.fields {
                                Fields::Named(fs) => fs,
                                _ => {
                                    proof {
                                        assert(!crate::derive::variant_ok(
                                            e.variants@[*idx as int],
                                        ));
                                    }
                                    return Err(SerializeError::InvalidDeclaration);
                                },
                            },
                            _ => {
                                proof {
                                    assert(!crate::derive::variant_ok(e.variants@[*idx as int]));
                                }
                                return Err(SerializeError::InvalidDeclaration);
                            },
                        };
                        let ivs = match &vs[0] {
                            ApiValue::Rec(ivs) => ivs,
                            _ => {
                                proof {
                                    if crate::derive::decl_ok(*t) && well_typed(*t, *v) {
                                        assert(fields_typed(Fields::Single(*f), vs@));
                                        assert(well_typed(f.ty, vs@[0]));
                                        assert(false);
                                    }
                                }
                                return Err(SerializeError::TypeMismatch);
                            },
                        };
                        let sub = match serialize_named_fields(inner_fs, ivs, Vec::new()) {
                            Ok(sub) => sub,
                            Err(err) => {
                                proof {
                                    if crate::derive::decl_ok(*t) && well_typed(*t, *v) {
                                        assert(crate::derive::variant_ok(e.variants@[*idx as int]));
                                        assert(crate::derive::decl_ok(f.ty));
                                        assert(forall|j: int|
                                            0 <= j < inner_fs@.len()
                                                ==> crate::derive::named_field_ok(
                                                #[trigger] inner_fs@[j],
                                            ));
                                        assert(fields_typed(Fields::Single(*f), vs@));
                                        assert(well_typed(f.ty, vs@[0]));
                                        assert(fields_typed(Fields::Named(*inner_fs), ivs@));
                                        assert(false);
                                    }
                                }
                                return Err(err);
                            },
                        };
                        let ghost sub_entries = sub@;
                        let mut entries = sub;
                        jobject_insert(&mut entries, tag, JsonValue::String(vd.name.clone()));
                        proof {
                            assert(jnames_of(Seq::<(String, JsonValue)>::empty())
                                =~= Seq::<Seq<char>>::empty());
                            assert forall|k: Seq<char>|
                                record_key_names(inner_fs@).contains(k) && !Set::empty().insert(
                                    tag_view,
                                ).contains(k) implies jlookup(sub_entries, k) == jlookup(
                                entries@,
                                k,
                            ) by {
                                assert(k != tag_view);
                            }
                            lemma_values_congruence(
                                inner_fs@,
                                ivs@,
                                sub_entries,
                                entries@,
                                Set::empty(),
                                Set::empty().insert(tag_view),
                            );
                            assert(variant_serializes_to(
                                tag_view,
                                e.variants@[*idx as int],
                                vs@,
                                JsonValue::Object(entries),
                            ));
                            assert(serializes_to(*t, *v, JsonValue::Object(entries)));
                        }
                        Ok(JsonValue::Object(entries))
                    },
                    Fields::Unnamed(_) => {
                        proof {
                            if crate::derive::decl_ok(*t) && well_typed(*t, *v) {
                                assert(crate::derive::variant_ok(e.variants@[*idx as int]));
                                assert(false);
                            }
                        }
                        Err(SerializeError::InvalidDeclaration)
                    },
                    Fields::Named(fs) => {
                        let mut init: Vec<(String, JsonValue)> = Vec::new();
                        init.push((tag, JsonValue::String(vd.name.clone())));
                        let ghost init_view = init@;
                        proof {
                            assert(jnames_of(init_view) =~= seq![tag_view]);
                        }
                        let entries = match serialize_named_fields(fs, vs, init) {
                            Ok(es) => es,
                            Err(err) => {
                                proof {
                                    if crate::derive::decl_ok(*t) && well_typed(*t, *v) {
                                        assert(crate::derive::variant_ok(e.variants@[*idx as int]));
                                        assert(forall|j: int|
                                            0 <= j < fs@.len() ==> crate::derive::named_field_ok(
                                                #[trigger] fs@[j],
                                            ));
                                        assert(fields_typed(Fields::Named(*fs), vs@));
                                        assert(false);
                                    }
                                }
                                return Err(err);
                            },
                        };
                        proof {
                            if !record_key_names(fs@).contains(tag_view) {
                                assert(jlookup(entries@, tag_view) == jlookup(
                                    init_view,
                                    tag_view,
                                ));
                            }
                            assert(variant_serializes_to(
                                tag_view,
                                e.variants@[*idx as int],
                                vs@,
                                JsonValue::Object(entries),
                            ));
                            assert(serializes_to(*t, *v, JsonValue::Object(entries)));
                        }
                        Ok(JsonValue::Object(entries))
                    },
                }
            },
            _ => {
                proof {
                    if crate::derive::decl_ok(*t) && well_typed(*t, *v) {
                        assert(false);
                    }
                }
                Err(SerializeError::TypeMismatch)
            },
        },
    }
}

// ---------------------------------------------------------------------------
// The decode relation: which typed value a JSON value decodes to.
// ---------------------------------------------------------------------------
/// The first variant carrying the given name: the decoder scans in
/// declaration order.
pub open spec fn variant_index_of(variants: Seq<VariantDecl>, name: Seq<char>) -> Option<int>
    decreases variants.len(),
{
    if variants.len() == 0 {
        None
    } else if variants[0].name@ == name {
        Some(0int)
    } else {
        match variant_index_of(variants.drop_first(), name) {
            Some(i) => Some(i + 1),
            None => None,
        }
    }
}

/// The object keys a field contributes, fully expanded and with duplicates
/// kept: unlike the merged key list, a collision shows up here twice.
pub open spec fn fkn_all(f: NamedField) -> Seq<Seq<char>>
    decreases f, 0int,
{
    if !spec_flatten(f.attrs@) {
        seq![f.name@]
    } else {
        match f.ty {
            ApiType::Record(d) => match d.fields {
                Fields::Named(fs) => all_field_keys(fs@),
                _ => Seq::empty(),
            },
            _ => Seq::empty(),
        }
    }
}

/// Every object key the field list contributes, duplicates kept.
pub open spec fn all_field_keys(fields: Seq<NamedField>) -> Seq<Seq<char>>
    decreases fields, 1int,
{
    if fields.len() == 0 {
        Seq::empty()
    } else {
        all_field_keys(fields.drop_last()) + fkn_all(fields.last())
    }
}

/// Can a value of this type serialize to the JSON value `null`? An optional
/// over such a type cannot be told from an absent optional on the wire. A
/// transparent record passes the question through to its single field.
pub open spec fn nullable(t: ApiType) -> bool
    decreases t,
{
    match t {
        ApiType::Unit => true,
        ApiType::AnyJson => true,
        ApiType::Optional(_) => true,
        ApiType::Record(d) => match d.fields {
            Fields::Single(f) => nullable(f.ty),
            _ => false,
        },
        _ => false,
    }
}

/// The declaration's wire encoding is unambiguous: no two fields write the
/// same object key, no variant field collides with the discriminant key,
/// variant names are distinct, and no optional wraps a nullable type. On
/// such declarations decoding a serialized value always succeeds.
pub open spec fn unambiguous(t: ApiType) -> bool
    decreases t, 2int,
{
    match t {
        ApiType::Number => true,
        ApiType::Boolean => true,
        ApiType::Text => true,
        ApiType::Unit => true,
        ApiType::AnyJson => true,
        ApiType::Uuid => true,
        ApiType::DateTime => true,
        ApiType::ArrayOf(inner) => unambiguous(*inner),
        ApiType::Tuple(ts) => forall|i: int| 0 <= i < ts@.len() ==> unambiguous(#[trigger] ts@[i]),
        ApiType::MapOf(inner) => unambiguous(*inner),
        ApiType::Optional(inner) => !nullable(*inner) && unambiguous(*inner),
        ApiType::Record(d) => match d.fields {
            Fields::Unit => true,
            Fields::Single(f) => unambiguous(f.ty),
            Fields::Unnamed(fs) => forall|i: int|
                0 <= i < fs@.len() ==> unambiguous((#[trigger] fs@[i]).ty),
            Fields::Named(fs) => no_dup_names(all_field_keys(fs@)) && (forall|i: int|
                0 <= i < fs@.len() ==> unambiguous((#[trigger] fs@[i]).ty)),
        },
        ApiType::Union(e) => {
            &&& forall|a: int, b: int|
                0 <= a < b < e.variants@.len() ==> (#[trigger] e.variants@[a]).name@ != (
                #[trigger] e.variants@[b]).name@
            &&& forall|i: int|
                0 <= i < e.variants@.len() ==> variant_unambiguous(
                    spec_enum_tag(*e),
                    #[trigger] e.variants@[i],
                )
        },
    }
}

/// One variant's wire encoding is unambiguous under the given tag key.
pub open spec fn variant_unambiguous(tag: Seq<char>, v: VariantDecl) -> bool
    decreases v, 3int,
{
    match v.fields {
        Fields::Unit => true,
        Fields::Single(f) => match f.ty {
            ApiType::Record(d) => match d.fields {
                Fields::Named(fs) => !all_field_keys(fs@).contains(tag) && unambiguous(f.ty),
                _ => true,
            },
            _ => true,
        },
        Fields::Unnamed(_) => true,
        Fields::Named(fs) => {
            &&& no_dup_names(all_field_keys(fs@))
            &&& !all_field_keys(fs@).contains(tag)
            &&& forall|i: int| 0 <= i < fs@.len() ==> unambiguous((#[trigger] fs@[i]).ty)
        },
    }
}

/// The decode relation: the JSON value `j` decodes to the typed value `v`.
/// It mirrors the serializer's wire rules in reverse: each named field reads
/// its own key (absence decodes an optional field), a flattened field
/// reconstructs its record from the same flat object, and a union picks the
/// first variant whose name the wire carries.
pub open spec fn deserializes_to(t: ApiType, j: JsonValue, v: ApiValue) -> bool
    decreases t, 6int,
{
    match t {
        ApiType::Number => j matches JsonValue::Number(n) && v == ApiValue::Num(n),
        ApiType::Boolean => j matches JsonValue::Bool(b) && v == ApiValue::Bool(b),
        ApiType::Text => j matches JsonValue::String(s) && (v matches ApiValue::Str(s2) && s2@
            == s@),
        ApiType::Unit => j is Null && v is Null,
        ApiType::AnyJson => plain_to(v, j),
        ApiType::Uuid => j matches JsonValue::String(s) && (v matches ApiValue::Str(s2) && s2@
            == s@),
        ApiType::DateTime => j matches JsonValue::String(s) && (v matches ApiValue::Str(s2) && s2@
            == s@),
        ApiType::ArrayOf(inner) => {
            &&& j matches JsonValue::Array(js)
            &&& v matches ApiValue::Arr(vs)
            &&& vs@.len() == js@.len()
            &&& forall|i: int|
                0 <= i < js@.len() ==> deserializes_to(*inner, #[trigger] js@[i], vs@[i])
        },
        ApiType::Tuple(ts) => {
            &&& j matches JsonValue::Array(js)
            &&& v matches ApiValue::Arr(vs)
            &&& js@.len() == ts@.len()
            &&& vs@.len() == ts@.len()
            &&& forall|i: int|
                0 <= i < ts@.len() ==> deserializes_to(#[trigger] ts@[i], js@[i], vs@[i])
        },
        ApiType::MapOf(inner) => {
            &&& j matches JsonValue::Object(entries)
            &&& no_dup_names(jnames_of(entries@))
            &&& v matches ApiValue::Dict(es)
            &&& es@.len() == entries@.len()
            &&& forall|i: int|
                0 <= i < entries@.len() ==> (#[trigger] es@[i]).0@ == entries@[i].0@
                    && deserializes_to(*inner, entries@[i].1, es@[i].1)
        },
        ApiType::Optional(inner) => if j is Null {
            v is Absent
        } else {
            v matches ApiValue::Present(b) && deserializes_to(*inner, j, *b)
        },
        ApiType::Record(d) => match d.fields {
            Fields::Unit => false,
            Fields::Single(f) => v matches ApiValue::Rec(vs) && vs@.len() == 1 && deserializes_to(
                f.ty,
                j,
                vs@[0],
            ),
            Fields::Unnamed(fs) => {
                &&& j matches JsonValue::Array(js)
                &&& v matches ApiValue::Rec(vs)
                &&& js@.len() == fs@.len()
                &&& vs@.len() == fs@.len()
                &&& forall|i: int|
                    0 <= i < fs@.len() ==> deserializes_to((#[trigger] fs@[i]).ty, js@[i], vs@[i])
            },
            Fields::Named(fs) => {
                &&& j matches JsonValue::Object(entries)
                &&& v matches ApiValue::Rec(vs)
                &&& fields_decode(fs@, entries@, vs@)
            },
        },
        ApiType::Union(e) => match j {
            JsonValue::String(name) => match variant_index_of(e.variants@, name@) {
                Some(i) => 0 <= i < e.variants@.len() && e.variants@[i].fields is Unit && (v
                    matches ApiValue::Var(idx, vs) && idx == i && vs@.len() == 0),
                None => false,
            },
            JsonValue::Object(entries) => match jlookup(entries@, spec_enum_tag(*e)) {
                Some(jv) => match jv {
                    JsonValue::String(nm) => match variant_index_of(e.variants@, nm@) {
                        Some(i) => 0 <= i < e.variants@.len() && (v matches ApiValue::Var(idx, vs)
                            && idx == i && variant_decode(e.variants@[i], entries@, vs@)),
                        None => false,
                    },
                    _ => false,
                },
                None => false,
            },
            _ => false,
        },
    }
}

/// One tagged variant's values, decoded from the flat object.
pub open spec fn variant_decode(
    vd: VariantDecl,
    entries: Seq<(String, JsonValue)>,
    vs: Seq<ApiValue>,
) -> bool
    decreases vd, 7int,
{
    match vd.fields {
        Fields::Unit => false,
        Fields::Single(f) => match f.ty {
            ApiType::Record(d) => match d.fields {
                Fields::Named(fs) => {
                    &&& vs.len() == 1
                    &&& vs[0] matches ApiValue::Rec(ivs)
                    &&& fields_decode(fs@, entries, ivs@)
                },
                _ => false,
            },
            _ => false,
        },
        Fields::Unnamed(_) => false,
        Fields::Named(fs) => fields_decode(fs@, entries, vs),
    }
}

/// Every field's value is decoded from the flat object.
pub open spec fn fields_decode(
    fields: Seq<NamedField>,
    entries: Seq<(String, JsonValue)>,
    vs: Seq<ApiValue>,
) -> bool
    decreases fields, 4int,
{
    vs.len() == fields.len() && (forall|i: int|
        0 <= i < fields.len() ==> field_decode(#[trigger] fields[i], entries, vs[i]))
}

/// One field's value is decoded from the flat object: its own key when
/// present, absence for an optional field, the whole object for a flattened
/// record.
pub open spec fn field_decode(
    f: NamedField,
    entries: Seq<(String, JsonValue)>,
    v: ApiValue,
) -> bool
    decreases f, 5int,
{
    if !spec_flatten(f.attrs@) {
        match jlookup(entries, f.name@) {
            Some(jv) => deserializes_to(f.ty, jv, v),
            None => f.ty is Optional && v is Absent,
        }
    } else {
        match f.ty {
            ApiType::Record(d) => match d.fields {
                Fields::Named(fs) => v matches ApiValue::Rec(ivs) && fields_decode(
                    fs@,
                    entries,
                    ivs@,
                ),
                _ => false,
            },
            _ => false,
        }
    }
}

// ---------------------------------------------------------------------------
// Facts tying collision freedom to the serialized object's entries.
// ---------------------------------------------------------------------------
/// A duplicate-free concatenation has duplicate-free, disjoint parts.
proof fn lemma_no_dup_concat(a: Seq<Seq<char>>, b: Seq<Seq<char>>)
    requires
        no_dup_names(a + b),
    ensures
        no_dup_names(a),
        no_dup_names(b),
        forall|k: Seq<char>| a.contains(k) ==> !b.contains(k),
{
    let c = a + b;
    assert forall|i: int, j: int| 0 <= i < j < a.len() implies a[i] != a[j] by {
        assert(c[i] == a[i] && c[j] == a[j]);
    }
    assert forall|i: int, j: int| 0 <= i < j < b.len() implies b[i] != b[j] by {
        assert(c[a.len() + i] == b[i] && c[a.len() + j] == b[j]);
    }
    assert forall|k: Seq<char>| a.contains(k) implies !b.contains(k) by {
        if b.contains(k) {
            let i = choose|i: int| 0 <= i < a.len() && a[i] == k;
            let j = choose|j: int| 0 <= j < b.len() && b[j] == k;
            assert(c[i] == k && c[a.len() + j] == k);
        }
    }
}

/// A field's merged keys are among its fully expanded keys.
proof fn lemma_fkn_sub_all(f: NamedField, k: Seq<char>)
    requires
        field_key_names(f).contains(k),
    ensures
        fkn_all(f).contains(k),
    decreases f, 0int,
{
    if !spec_flatten(f.attrs@) {
        let i = choose|i: int| 0 <= i < field_key_names(f).len() && field_key_names(f)[i] == k;
        assert(field_key_names(f)[0] == f.name@);
        assert(fkn_all(f)[0] == f.name@);
    } else {
        match f.ty {
            ApiType::Record(d) => match d.fields {
                Fields::Named(fs) => {
                    lemma_rkn_sub_all(fs@, k);
                },
                _ => {},
            },
            _ => {},
        }
    }
}

/// A field list's merged keys are among its fully expanded keys.
proof fn lemma_rkn_sub_all(fields: Seq<NamedField>, k: Seq<char>)
    requires
        record_key_names(fields).contains(k),
    ensures
        all_field_keys(fields).contains(k),
    decreases fields, 1int,
{
    if fields.len() > 0 {
        let f = fields.last();
        let prefix = fields.drop_last();
        assert(record_key_names(fields) == names_insert_all(
            record_key_names(prefix),
            field_key_names(f),
        ));
        crate::derive::lemma_nia_contains(record_key_names(prefix), field_key_names(f), k);
        if record_key_names(prefix).contains(k) {
            lemma_rkn_sub_all(prefix, k);
            let i = choose|i: int|
                0 <= i < all_field_keys(prefix).len() && all_field_keys(prefix)[i] == k;
            assert(all_field_keys(fields)[i] == k);
        } else {
            assert(field_key_names(f).contains(k));
            lemma_fkn_sub_all(f, k);
            let i = choose|i: int| 0 <= i < fkn_all(f).len() && fkn_all(f)[i] == k;
            assert(all_field_keys(fields)[all_field_keys(prefix).len() + i] == k);
        }
    }
}

/// The first matching position characterizes `variant_index_of`.
proof fn lemma_variant_index_first(variants: Seq<VariantDecl>, nm: Seq<char>, i: int)
    requires
        0 <= i < variants.len(),
        variants[i].name@ == nm,
        forall|kk: int| 0 <= kk < i ==> (#[trigger] variants[kk]).name@ != nm,
    ensures
        variant_index_of(variants, nm) == Some(i),
    decreases variants.len(),
{
    if i == 0 {
    } else {
        assert(variants[0].name@ != nm);
        assert(variants.drop_first()[i - 1] == variants[i]);
        assert(forall|kk: int|
            0 <= kk < i - 1 ==> (#[trigger] variants.drop_first()[kk]) == variants[kk + 1]);
        lemma_variant_index_first(variants.drop_first(), nm, i - 1);
    }
}


/// Pointwise field entries, each unshadowed, assemble into the entry fold:
/// with every field's own facts in hand, any shadow set is satisfied.
proof fn lemma_values_entries_intro(
    fields: Seq<NamedField>,
    vs: Seq<ApiValue>,
    entries: Seq<(String, JsonValue)>,
    sh: Set<Seq<char>>,
)
    requires
        vs.len() == fields.len(),
        forall|i: int|
            0 <= i < fields.len() ==> value_entry_ok(#[trigger] fields[i], vs[i], entries, Set::empty()),
    ensures
        values_entries_ok(fields, vs, entries, sh),
    decreases fields.len(),
{
    if fields.len() > 0 {
        let f = fields.last();
        assert(value_entry_ok(fields[fields.len() - 1], vs[fields.len() - 1], entries, Set::empty()));
        lemma_value_entry_congruence(f, vs.last(), entries, entries, Set::empty(), sh);
        assert(forall|i: int|
            0 <= i < fields.drop_last().len() ==> (#[trigger] fields.drop_last()[i]) == fields[i]
                && vs.drop_last()[i] == vs[i]);
        lemma_values_entries_intro(
            fields.drop_last(),
            vs.drop_last(),
            entries,
            sh.union(field_key_names(f).to_set()),
        );
    }
}

/// With collision-free keys that avoid the shadow set, the entry fold gives
/// every field its own facts, unshadowed.
proof fn lemma_values_entries_elim(
    fields: Seq<NamedField>,
    vs: Seq<ApiValue>,
    entries: Seq<(String, JsonValue)>,
    sh: Set<Seq<char>>,
)
    requires
        values_entries_ok(fields, vs, entries, sh),
        no_dup_names(all_field_keys(fields)),
        forall|k: Seq<char>| all_field_keys(fields).contains(k) ==> !sh.contains(k),
    ensures
        vs.len() == fields.len(),
        forall|i: int|
            0 <= i < fields.len() ==> value_entry_ok(#[trigger] fields[i], vs[i], entries, Set::empty()),
    decreases fields, 2int,
{
    if fields.len() > 0 {
        let f = fields.last();
        let prefix = fields.drop_last();
        assert(all_field_keys(fields) == all_field_keys(prefix) + fkn_all(f));
        lemma_no_dup_concat(all_field_keys(prefix), fkn_all(f));
        // the last field's facts hold under `sh`, which avoids its keys
        assert forall|k: Seq<char>| fkn_all(f).contains(k) implies !sh.contains(k) by {
            let i = choose|i: int| 0 <= i < fkn_all(f).len() && fkn_all(f)[i] == k;
            assert(all_field_keys(fields)[all_field_keys(prefix).len() + i] == k);
            assert(all_field_keys(fields).contains(k));
        }
        lemma_field_entry_unshadow(f, vs.last(), entries, sh);
        // the earlier fields' shadow adds only the last field's keys, which
        // their own keys avoid
        assert forall|k: Seq<char>|
            all_field_keys(prefix).contains(k) implies !sh.union(
            field_key_names(f).to_set(),
        ).contains(k) by {
            let i = choose|i: int|
                0 <= i < all_field_keys(prefix).len() && all_field_keys(prefix)[i] == k;
            assert(all_field_keys(fields)[i] == k);
            assert(!sh.contains(k));
            if field_key_names(f).contains(k) {
                lemma_fkn_sub_all(f, k);
            }
        }
        lemma_values_entries_elim(
            prefix,
            vs.drop_last(),
            entries,
            sh.union(field_key_names(f).to_set()),
        );
        assert forall|i: int| 0 <= i < fields.len() implies value_entry_ok(
            #[trigger] fields[i],
            vs[i],
            entries,
            Set::empty(),
        ) by {
            if i < fields.len() - 1 {
                assert(prefix[i] == fields[i] && vs.drop_last()[i] == vs[i]);
            }
        }
    }
}

/// One field's entry facts under a shadow that avoids its keys hold with no
/// shadow at all.
proof fn lemma_field_entry_unshadow(
    f: NamedField,
    val: ApiValue,
    entries: Seq<(String, JsonValue)>,
    sh: Set<Seq<char>>,
)
    requires
        value_entry_ok(f, val, entries, sh),
        no_dup_names(fkn_all(f)),
        forall|k: Seq<char>| fkn_all(f).contains(k) ==> !sh.contains(k),
    ensures
        value_entry_ok(f, val, entries, Set::empty()),
    decreases f, 3int,
{
    if !spec_flatten(f.attrs@) {
        assert(fkn_all(f)[0] == f.name@);
        assert(fkn_all(f).contains(f.name@));
        assert(!sh.contains(f.name@));
    } else {
        match f.ty {
            ApiType::Record(d) => match d.fields {
                Fields::Named(fs) => match val {
                    ApiValue::Rec(ivs) => {
                        lemma_values_entries_elim(fs@, ivs@, entries, sh);
                        lemma_values_entries_intro(fs@, ivs@, entries, Set::empty());
                    },
                    _ => {},
                },
                _ => {},
            },
            _ => {},
        }
    }
}

/// A reason a JSON value is refused by the typed decoder.
#[derive(Debug, PartialEq, Eq, Clone, Copy)]
pub enum DeserializeError {
    /// The JSON value does not fit the declared type.
    ShapeMismatch,
    /// The declaration is one that registration rejects.
    InvalidDeclaration,
    /// The tagged object carries no known variant tag.
    UnknownVariant,
}

/// The decoder owes success: the declaration is accepted and unambiguous,
/// and the JSON value is the serialization of some value of the type.
pub open spec fn decode_owed(t: ApiType, j: JsonValue) -> bool {
    &&& decl_ok(t)
    &&& unambiguous(t)
    &&& exists|v0: ApiValue| well_typed(t, v0) && serializes_to(t, v0, j)
}

/// The field decoder owes success: each field is well formed and
/// unambiguous, and some well-typed values put their entries into the flat
/// object, none of them shadowed.
pub open spec fn fields_decode_owed(
    fields: Seq<NamedField>,
    entries: Seq<(String, JsonValue)>,
) -> bool {
    &&& forall|i: int| 0 <= i < fields.len() ==> named_field_ok(#[trigger] fields[i])
    &&& forall|i: int| 0 <= i < fields.len() ==> unambiguous((#[trigger] fields[i]).ty)
    &&& exists|vs0: Seq<ApiValue>|
        {
            &&& vs0.len() == fields.len()
            &&& (forall|i: int|
                0 <= i < fields.len() ==> well_typed((#[trigger] fields[i]).ty, vs0[i]))
            &&& (forall|i: int|
                0 <= i < fields.len() ==> value_entry_ok(
                    #[trigger] fields[i],
                    vs0[i],
                    entries,
                    Set::empty(),
                ))
        }
}

/// Decode an untyped value: the one-to-one copy out of JSON.
#[verifier::loop_isolation(false)]
fn deserialize_plain(j: &JsonValue) -> (r: ApiValue)
    ensures
        plain(r),
        plain_to(r, *j),
    decreases *j,
{
    match j {
        JsonValue::Null => ApiValue::Null,
        JsonValue::Bool(b) => ApiValue::Bool(*b),
        JsonValue::Number(n) => ApiValue::Num(*n),
        JsonValue::String(s) => ApiValue::Str(s.clone()),
        JsonValue::Array(js) => {
            let mut vs: Vec<ApiValue> = Vec::new();
            let mut i: usize = 0;
            while i < js.len()
                invariant
                    0 <= i <= js@.len(),
                    vs@.len() == i,
                    forall|k: int| 0 <= k < i ==> plain(#[trigger] vs@[k]),
                    forall|k: int| 0 <= k < i ==> plain_to(#[trigger] vs@[k], js@[k]),
                decreases js@.len() - i,
            {
                let v = deserialize_plain(&js[i]);
                vs.push(v);
                i = i + 1;
            }
            ApiValue::Arr(vs)
        },
        JsonValue::Object(entries) => {
            let mut es: Vec<(String, ApiValue)> = Vec::new();
            let mut i: usize = 0;
            while i < entries.len()
                invariant
                    0 <= i <= entries@.len(),
                    es@.len() == i,
                    forall|k: int| 0 <= k < i ==> plain((#[trigger] es@[k]).1),
                    forall|k: int|
                        0 <= k < i ==> (#[trigger] es@[k]).0@ == entries@[k].0@ && plain_to(
                            es@[k].1,
                            entries@[k].1,
                        ),
                decreases entries@.len() - i,
            {
                let v = deserialize_plain(&entries[i].1);
                es.push((entries[i].0.clone(), v));
                i = i + 1;
            }
            ApiValue::Dict(es)
        },
    }
}

/// Decode the values of a list of named fields out of a JSON object: each
/// field reads its own key (absence decodes an optional field), and a
/// flattened field reconstructs its record from the same flat object.
/// Succeeds on every object that some well-typed values wrote, unshadowed;
/// the result is pinned by `fields_decode`.
#[verifier::loop_isolation(false)]
#[verifier::rlimit(100)]
fn deserialize_named_fields(
    fields: &Vec<NamedField>,
    entries: &Vec<(String, JsonValue)>,
) -> (r: Result<Vec<ApiValue>, DeserializeError>)
    ensures
        r matches Ok(vs) ==> vs@.len() == fields@.len() && (forall|i: int|
            0 <= i < fields@.len() ==> well_typed((#[trigger] fields@[i]).ty, vs@[i])),
        r matches Ok(vs) ==> fields_decode(fields@, entries@, vs@),
        fields_decode_owed(fields@, entries@) ==> r is Ok,
    decreases fields@, 0int,
{
    let mut vs: Vec<ApiValue> = Vec::new();
    let mut i: usize = 0;
    while i < fields.len()
        invariant
            0 <= i <= fields@.len(),
            vs@.len() == i,
            forall|k: int| 0 <= k < i ==> well_typed((#[trigger] fields@[k]).ty, vs@[k]),
            forall|k: int| 0 <= k < i ==> field_decode(#[trigger] fields@[k], entries@, vs@[k]),
        decreases fields@.len() - i,
    {
        let f = &fields[i];
        if has_flatten(&f.attrs) {
            let inner_fs = match &f.ty {
                ApiType::Record(d) => match &d.fields {
                    Fields::Named(fs) => fs,
                    _ => {
                        proof {
                            if fields_decode_owed(fields@, entries@) {
                                assert(named_field_ok(fields@[i as int]));
                                assert(false);
                            }
                        }
                        return Err(DeserializeError::InvalidDeclaration);
                    },
                },
                _ => {
                    proof {
                        if fields_decode_owed(fields@, entries@) {
                            assert(named_field_ok(fields@[i as int]));
                            assert(false);
                        }
                    }
                    return Err(DeserializeError::InvalidDeclaration);
                },
            };
            let ivs = match deserialize_named_fields(inner_fs, entries) {
                Ok(ivs) => ivs,
                Err(e) => {
                    proof {
                        if fields_decode_owed(fields@, entries@) {
                            let vs0 = choose|vs0: Seq<ApiValue>|
                                {
                                    &&& #[trigger] vs0.len() == fields@.len()
                                    &&& (forall|k: int|
                                        0 <= k < fields@.len() ==> well_typed(
                                            (#[trigger] fields@[k]).ty,
                                            vs0[k],
                                        ))
                                    &&& (forall|k: int|
                                        0 <= k < fields@.len() ==> value_entry_ok(
                                            #[trigger] fields@[k],
                                            vs0[k],
                                            entries@,
                                            Set::empty(),
                                        ))
                                };
                            assert(value_entry_ok(
                                fields@[i as int],
                                vs0[i as int],
                                entries@,
                                Set::empty(),
                            ));
                            let ivs0 = match vs0[i as int] {
                                ApiValue::Rec(x) => x@,
                                _ => Seq::empty(),
                            };
                            assert(well_typed(fields@[i as int].ty, vs0[i as int]));
                            assert(fields_typed(Fields::Named(*inner_fs), ivs0));
                            assert(unambiguous(fields@[i as int].ty));
                            assert(no_dup_names(all_field_keys(inner_fs@)));
                            assert(values_entries_ok(inner_fs@, ivs0, entries@, Set::empty()));
                            lemma_values_entries_elim(
                                inner_fs@,
                                ivs0,
                                entries@,
                                Set::empty(),
                            );
                            assert(decl_ok(fields@[i as int].ty));
                            assert(fields_decode_owed(inner_fs@, entries@));
                            assert(false);
                        }
                    }
                    return Err(e);
                },
            };
            let ghost ivsg = ivs@;
            proof {
                assert(fields_typed(Fields::Named(*inner_fs), ivsg));
            }
            let rec = ApiValue::Rec(ivs);
            proof {
                assert(well_typed(fields@[i as int].ty, rec));
                assert(field_decode(fields@[i as int], entries@, rec));
            }
            vs.push(rec);
        } else {
            let jv = match crate::json::lookup_value(entries, f.name.as_str()) {
                Some(jv) => jv,
                None => {
                    // an absent key decodes only an optional field
                    match &f.ty {
                        ApiType::Optional(_) => {
                            proof {
                                assert(field_decode(
                                    fields@[i as int],
                                    entries@,
                                    ApiValue::Absent,
                                ));
                            }
                            vs.push(ApiValue::Absent);
                            i = i + 1;
                            continue ;
                        },
                        _ => {
                            proof {
                                if fields_decode_owed(fields@, entries@) {
                                    let vs0 = choose|vs0: Seq<ApiValue>|
                                        {
                                            &&& #[trigger] vs0.len() == fields@.len()
                                            &&& (forall|k: int|
                                                0 <= k < fields@.len() ==> well_typed(
                                                    (#[trigger] fields@[k]).ty,
                                                    vs0[k],
                                                ))
                                            &&& (forall|k: int|
                                                0 <= k < fields@.len() ==> value_entry_ok(
                                                    #[trigger] fields@[k],
                                                    vs0[k],
                                                    entries@,
                                                    Set::empty(),
                                                ))
                                        };
                                    assert(value_entry_ok(
                                        fields@[i as int],
                                        vs0[i as int],
                                        entries@,
                                        Set::empty(),
                                    ));
                                    assert(false);
                                }
                            }
                            return Err(DeserializeError::ShapeMismatch);
                        },
                    }
                },
            };
            let v = match deserialize_value(&f.ty, jv) {
                Ok(v) => v,
                Err(e) => {
                    proof {
                        if fields_decode_owed(fields@, entries@) {
                            let vs0 = choose|vs0: Seq<ApiValue>|
                                {
                                    &&& #[trigger] vs0.len() == fields@.len()
                                    &&& (forall|k: int|
                                        0 <= k < fields@.len() ==> well_typed(
                                            (#[trigger] fields@[k]).ty,
                                            vs0[k],
                                        ))
                                    &&& (forall|k: int|
                                        0 <= k < fields@.len() ==> value_entry_ok(
                                            #[trigger] fields@[k],
                                            vs0[k],
                                            entries@,
                                            Set::empty(),
                                        ))
                                };
                            assert(value_entry_ok(
                                fields@[i as int],
                                vs0[i as int],
                                entries@,
                                Set::empty(),
                            ));
                            assert(well_typed(fields@[i as int].ty, vs0[i as int]));
                            assert(serializes_to(fields@[i as int].ty, vs0[i as int], *jv));
                            assert(decode_owed(fields@[i as int].ty, *jv));
                            assert(false);
                        }
                    }
                    return Err(e);
                },
            };
            proof {
                assert(field_decode(fields@[i as int], entries@, v));
            }
            vs.push(v);
        }
        i = i + 1;
    }
    Ok(vs)
}

/// Decode a typed value out of its JSON wire form: the inverse direction of
/// the serializer. Success is owed on the serialization of any value of an
/// accepted, unambiguous declaration; any decoded value inhabits the
/// declared type and is pinned by the decode relation, which mirrors the
/// serializer's wire rules.
#[verifier::loop_isolation(false)]
#[verifier::rlimit(100)]
pub fn deserialize_value(t: &ApiType, j: &JsonValue) -> (r: Result<ApiValue, DeserializeError>)
    ensures
        r matches Ok(v) ==> well_typed(*t, v),
        r matches Ok(v) ==> deserializes_to(*t, *j, v),
        decode_owed(*t, *j) ==> r is Ok,
    decreases *t, 1int,
{
    match t {
        ApiType::Number => match j {
            JsonValue::Number(n) => Ok(ApiValue::Num(*n)),
            _ => {
                proof {
                    if decode_owed(*t, *j) {
                        let v0 = choose|v0: ApiValue|
                            well_typed(*t, v0) && serializes_to(*t, v0, *j);
                        assert(false);
                    }
                }
                Err(DeserializeError::ShapeMismatch)
            },
        },
        ApiType::Boolean => match j {
            JsonValue::Bool(b) => Ok(ApiValue::Bool(*b)),
            _ => {
                proof {
                    if decode_owed(*t, *j) {
                        let v0 = choose|v0: ApiValue|
                            well_typed(*t, v0) && serializes_to(*t, v0, *j);
                        assert(false);
                    }
                }
                Err(DeserializeError::ShapeMismatch)
            },
        },
        ApiType::Text => match j {
            JsonValue::String(s) => Ok(ApiValue::Str(s.clone())),
            _ => {
                proof {
                    if decode_owed(*t, *j) {
                        let v0 = choose|v0: ApiValue|
                            well_typed(*t, v0) && serializes_to(*t, v0, *j);
                        assert(false);
                    }
                }
                Err(DeserializeError::ShapeMismatch)
            },
        },
        ApiType::Unit => match j {
            JsonValue::Null => Ok(ApiValue::Null),
            _ => {
                proof {
                    if decode_owed(*t, *j) {
                        let v0 = choose|v0: ApiValue|
                            well_typed(*t, v0) && serializes_to(*t, v0, *j);
                        assert(false);
                    }
                }
                Err(DeserializeError::ShapeMismatch)
            },
        },
        ApiType::AnyJson => Ok(deserialize_plain(j)),
        ApiType::Uuid => match j {
            JsonValue::String(s) => Ok(ApiValue::Str(s.clone())),
            _ => {
                proof {
                    if decode_owed(*t, *j) {
                        let v0 = choose|v0: ApiValue|
                            well_typed(*t, v0) && serializes_to(*t, v0, *j);
                        assert(false);
                    }
                }
                Err(DeserializeError::ShapeMismatch)
            },
        },
        ApiType::DateTime => match j {
            JsonValue::String(s) => Ok(ApiValue::Str(s.clone())),
            _ => {
                proof {
                    if decode_owed(*t, *j) {
                        let v0 = choose|v0: ApiValue|
                            well_typed(*t, v0) && serializes_to(*t, v0, *j);
                        assert(false);
                    }
                }
                Err(DeserializeError::ShapeMismatch)
            },
        },
        ApiType::ArrayOf(inner) => match j {
            JsonValue::Array(js) => {
                let mut vs: Vec<ApiValue> = Vec::new();
                let mut i: usize = 0;
                while i < js.len()
                    invariant
                        0 <= i <= js@.len(),
                        vs@.len() == i,
                        forall|k: int| 0 <= k < i ==> well_typed(**inner, #[trigger] vs@[k]),
                        forall|k: int|
                            0 <= k < i ==> deserializes_to(**inner, js@[k], #[trigger] vs@[k]),
                    decreases js@.len() - i,
                {
                    let v = match deserialize_value(inner, &js[i]) {
                        Ok(v) => v,
                        Err(e) => {
                            proof {
                                if decode_owed(*t, *j) {
                                    let v0 = choose|v0: ApiValue|
                                        well_typed(*t, v0) && serializes_to(*t, v0, *j);
                                    let vs0 = match v0 {
                                        ApiValue::Arr(x) => x@,
                                        _ => Seq::empty(),
                                    };
                                    assert(well_typed(**inner, vs0[i as int]));
                                    assert(serializes_to(**inner, vs0[i as int], js@[i as int]));
                                    assert(decode_owed(**inner, js@[i as int]));
                                    assert(false);
                                }
                            }
                            return Err(e);
                        },
                    };
                    vs.push(v);
                    i = i + 1;
                }
                Ok(ApiValue::Arr(vs))
            },
            _ => {
                proof {
                    if decode_owed(*t, *j) {
                        let v0 = choose|v0: ApiValue|
                            well_typed(*t, v0) && serializes_to(*t, v0, *j);
                        assert(false);
                    }
                }
                Err(DeserializeError::ShapeMismatch)
            },
        },
        ApiType::Tuple(ts) => match j {
            JsonValue::Array(js) => {
                if js.len() != ts.len() {
                    proof {
                        if decode_owed(*t, *j) {
                            let v0 = choose|v0: ApiValue|
                                well_typed(*t, v0) && serializes_to(*t, v0, *j);
                            assert(false);
                        }
                    }
                    return Err(DeserializeError::ShapeMismatch);
                }
                let mut vs: Vec<ApiValue> = Vec::new();
                let mut i: usize = 0;
                while i < ts.len()
                    invariant
                        0 <= i <= ts@.len(),
                        js@.len() == ts@.len(),
                        vs@.len() == i,
                        forall|k: int| 0 <= k < i ==> well_typed(#[trigger] ts@[k], vs@[k]),
                        forall|k: int|
                            0 <= k < i ==> deserializes_to(#[trigger] ts@[k], js@[k], vs@[k]),
                    decreases ts@.len() - i,
                {
                    let v = match deserialize_value(&ts[i], &js[i]) {
                        Ok(v) => v,
                        Err(e) => {
                            proof {
                                if decode_owed(*t, *j) {
                                    let v0 = choose|v0: ApiValue|
                                        well_typed(*t, v0) && serializes_to(*t, v0, *j);
                                    let vs0 = match v0 {
                                        ApiValue::Arr(x) => x@,
                                        _ => Seq::empty(),
                                    };
                                    assert(well_typed(ts@[i as int], vs0[i as int]));
                                    assert(serializes_to(
                                        ts@[i as int],
                                        vs0[i as int],
                                        js@[i as int],
                                    ));
                                    assert(decode_owed(ts@[i as int], js@[i as int]));
                                    assert(false);
                                }
                            }
                            return Err(e);
                        },
                    };
                    vs.push(v);
                    i = i + 1;
                }
                Ok(ApiValue::Arr(vs))
            },
            _ => {
                proof {
                    if decode_owed(*t, *j) {
                        let v0 = choose|v0: ApiValue|
                            well_typed(*t, v0) && serializes_to(*t, v0, *j);
                        assert(false);
                    }
                }
                Err(DeserializeError::ShapeMismatch)
            },
        },
        ApiType::MapOf(inner) => match j {
            JsonValue::Object(entries) => {
                if !crate::json::object_names_unique(entries) {
                    proof {
                        if decode_owed(*t, *j) {
                            let v0 = choose|v0: ApiValue|
                                well_typed(*t, v0) && serializes_to(*t, v0, *j);
                            let es0 = match v0 {
                                ApiValue::Dict(x) => x@,
                                _ => Seq::empty(),
                            };
                            assert(no_dup_names(dict_names(es0)));
                            assert(jnames_of(entries@) =~= dict_names(es0));
                            assert(false);
                        }
                    }
                    return Err(DeserializeError::ShapeMismatch);
                }
                let mut es: Vec<(String, ApiValue)> = Vec::new();
                let mut i: usize = 0;
                while i < entries.len()
                    invariant
                        0 <= i <= entries@.len(),
                        es@.len() == i,
                        forall|k: int| 0 <= k < i ==> well_typed(**inner, (#[trigger] es@[k]).1),
                        forall|k: int| 0 <= k < i ==> (#[trigger] es@[k]).0@ == entries@[k].0@,
                        forall|k: int|
                            0 <= k < i ==> deserializes_to(
                                **inner,
                                entries@[k].1,
                                (#[trigger] es@[k]).1,
                            ),
                    decreases entries@.len() - i,
                {
                    let v = match deserialize_value(inner, &entries[i].1) {
                        Ok(v) => v,
                        Err(e) => {
                            proof {
                                if decode_owed(*t, *j) {
                                    let v0 = choose|v0: ApiValue|
                                        well_typed(*t, v0) && serializes_to(*t, v0, *j);
                                    let es0 = match v0 {
                                        ApiValue::Dict(x) => x@,
                                        _ => Seq::empty(),
                                    };
                                    assert(well_typed(**inner, es0[i as int].1));
                                    assert(serializes_to(
                                        **inner,
                                        es0[i as int].1,
                                        entries@[i as int].1,
                                    ));
                                    assert(decode_owed(**inner, entries@[i as int].1));
                                    assert(false);
                                }
                            }
                            return Err(e);
                        },
                    };
                    es.push((entries[i].0.clone(), v));
                    i = i + 1;
                }
                proof {
                    assert(jnames_of(entries@) =~= dict_names(es@));
                }
                Ok(ApiValue::Dict(es))
            },
            _ => {
                proof {
                    if decode_owed(*t, *j) {
                        let v0 = choose|v0: ApiValue|
                            well_typed(*t, v0) && serializes_to(*t, v0, *j);
                        assert(false);
                    }
                }
                Err(DeserializeError::ShapeMismatch)
            },
        },
        ApiType::Optional(inner) => match j {
            JsonValue::Null => Ok(ApiValue::Absent),
            _ => {
                let v = match deserialize_value(inner, j) {
                    Ok(v) => v,
                    Err(e) => {
                        proof {
                            if decode_owed(*t, *j) {
                                let v0 = choose|v0: ApiValue|
                                    well_typed(*t, v0) && serializes_to(*t, v0, *j);
                                let b0 = match v0 {
                                    ApiValue::Present(b) => *b,
                                    _ => ApiValue::Null,
                                };
                                assert(v0 matches ApiValue::Present(bb) && *bb == b0);
                                assert(well_typed(**inner, b0));
                                assert(serializes_to(**inner, b0, *j));
                                assert(decode_owed(**inner, *j));
                                assert(false);
                            }
                        }
                        return Err(e);
                    },
                };
                Ok(ApiValue::Present(Box::new(v)))
            },
        },
        ApiType::Record(d) => match &d.fields {
            Fields::Unit => {
                proof {
                    if decode_owed(*t, *j) {
                        assert(false);
                    }
                }
                Err(DeserializeError::InvalidDeclaration)
            },
            Fields::Single(f) => {
                let v = match deserialize_value(&f.ty, j) {
                    Ok(v) => v,
                    Err(e) => {
                        proof {
                            if decode_owed(*t, *j) {
                                let v0 = choose|v0: ApiValue|
                                    well_typed(*t, v0) && serializes_to(*t, v0, *j);
                                let vs0 = match v0 {
                                    ApiValue::Rec(x) => x@,
                                    _ => Seq::empty(),
                                };
                                assert(fields_typed(Fields::Single(*f), vs0));
                                assert(crate::derive::field_ok(*f));
                                assert(well_typed(f.ty, vs0[0]));
                                assert(serializes_to(f.ty, vs0[0], *j));
                                assert(decode_owed(f.ty, *j));
                                assert(false);
                            }
                        }
                        return Err(e);
                    },
                };
                let mut vs: Vec<ApiValue> = Vec::new();
                vs.push(v);
                proof {
                    assert(fields_typed(Fields::Single(*f), vs@));
                }
                Ok(ApiValue::Rec(vs))
            },
            Fields::Unnamed(fs) => match j {
                JsonValue::Array(js) => {
                    if js.len() != fs.len() {
                        proof {
                            if decode_owed(*t, *j) {
                                let v0 = choose|v0: ApiValue|
                                    well_typed(*t, v0) && serializes_to(*t, v0, *j);
                                assert(false);
                            }
                        }
                        return Err(DeserializeError::ShapeMismatch);
                    }
                    let mut vs: Vec<ApiValue> = Vec::new();
                    let mut i: usize = 0;
                    while i < fs.len()
                        invariant
                            0 <= i <= fs@.len(),
                            js@.len() == fs@.len(),
                            vs@.len() == i,
                            forall|k: int|
                                0 <= k < i ==> well_typed((#[trigger] fs@[k]).ty, vs@[k]),
                            forall|k: int|
                                0 <= k < i ==> deserializes_to(
                                    (#[trigger] fs@[k]).ty,
                                    js@[k],
                                    vs@[k],
                                ),
                        decreases fs@.len() - i,
                    {
                        let v = match deserialize_value(&fs[i].ty, &js[i]) {
                            Ok(v) => v,
                            Err(e) => {
                                proof {
                                    if decode_owed(*t, *j) {
                                        let v0 = choose|v0: ApiValue|
                                            well_typed(*t, v0) && serializes_to(*t, v0, *j);
                                        let vs0 = match v0 {
                                            ApiValue::Rec(x) => x@,
                                            _ => Seq::empty(),
                                        };
                                        assert(fields_typed(Fields::Unnamed(*fs), vs0));
                                        assert(crate::derive::field_ok(fs@[i as int]));
                                        assert(well_typed(fs@[i as int].ty, vs0[i as int]));
                                        assert(serializes_to(
                                            fs@[i as int].ty,
                                            vs0[i as int],
                                            js@[i as int],
                                        ));
                                        assert(decode_owed(fs@[i as int].ty, js@[i as int]));
                                        assert(false);
                                    }
                                }
                                return Err(e);
                            },
                        };
                        vs.push(v);
                        i = i + 1;
                    }
                    proof {
                        assert(fields_typed(Fields::Unnamed(*fs), vs@));
                    }
                    Ok(ApiValue::Rec(vs))
                },
                _ => {
                    proof {
                        if decode_owed(*t, *j) {
                            let v0 = choose|v0: ApiValue|
                                well_typed(*t, v0) && serializes_to(*t, v0, *j);
                            assert(false);
                        }
                    }
                    Err(DeserializeError::ShapeMismatch)
                },
            },
            Fields::Named(fs) => match j {
                JsonValue::Object(entries) => {
                    let vs = match deserialize_named_fields(fs, entries) {
                        Ok(vs) => vs,
                        Err(e) => {
                            proof {
                                if decode_owed(*t, *j) {
                                    let v0 = choose|v0: ApiValue|
                                        well_typed(*t, v0) && serializes_to(*t, v0, *j);
                                    let vs0 = match v0 {
                                        ApiValue::Rec(x) => x@,
                                        _ => Seq::empty(),
                                    };
                                    assert(fields_typed(Fields::Named(*fs), vs0));
                                    assert(no_dup_names(all_field_keys(fs@)));
                                    assert(values_entries_ok(fs@, vs0, entries@, Set::empty()));
                                    lemma_values_entries_elim(
                                        fs@,
                                        vs0,
                                        entries@,
                                        Set::empty(),
                                    );
                                    assert(fields_decode_owed(fs@, entries@));
                                    assert(false);
                                }
                            }
                            return Err(e);
                        },
                    };
                    proof {
                        assert(fields_typed(Fields::Named(*fs), vs@));
                    }
                    Ok(ApiValue::Rec(vs))
                },
                _ => {
                    proof {
                        if decode_owed(*t, *j) {
                            let v0 = choose|v0: ApiValue|
                                well_typed(*t, v0) && serializes_to(*t, v0, *j);
                            assert(false);
                        }
                    }
                    Err(DeserializeError::ShapeMismatch)
                },
            },
        },
        ApiType::Union(e) => {
            let tag = enum_tag(&e.attrs);
            let ghost tag_view = spec_enum_tag(**e);
            proof {
                assert(tag@ == tag_view);
            }
            let variants = &e.variants;
            match j {
                JsonValue::String(name) => {
                    // a bare string names a unit variant
                    let mut i: usize = 0;
                    while i < variants.len()
                        invariant
                            0 <= i <= variants@.len(),
                            forall|k: int|
                                0 <= k < i ==> (#[trigger] variants@[k]).name@ != name@,
                        decreases variants@.len() - i,
                    {
                        if crate::text::str_eq(variants[i].name.as_str(), name.as_str()) {
                            proof {
                                lemma_variant_index_first(variants@, name@, i as int);
                            }
                            match &variants[i].fields {
                                Fields::Unit => {
                                    proof {
                                        assert(fields_typed(
                                            e.variants@[i as int].fields,
                                            Seq::<ApiValue>::empty(),
                                        ));
                                    }
                                    return Ok(ApiValue::Var(i, Vec::new()));
                                },
                                _ => {
                                    proof {
                                        if decode_owed(*t, *j) {
                                            let v0 = choose|v0: ApiValue|
                                                well_typed(*t, v0) && serializes_to(*t, v0, *j);
                                            let idx0 = match v0 {
                                                ApiValue::Var(x, _) => x as int,
                                                _ => 0,
                                            };
                                            assert(variant_serializes_to(
                                                tag_view,
                                                e.variants@[idx0],
                                                match v0 {
                                                    ApiValue::Var(_, xs) => xs@,
                                                    _ => Seq::empty(),
                                                },
                                                *j,
                                            ));
                                            assert(e.variants@[idx0].fields is Unit);
                                            assert(e.variants@[idx0].name@ == name@);
                                            assert(i as int == idx0);
                                            assert(false);
                                        }
                                    }
                                    return Err(DeserializeError::ShapeMismatch);
                                },
                            }
                        }
                        i = i + 1;
                    }
                    proof {
                        if decode_owed(*t, *j) {
                            let v0 = choose|v0: ApiValue|
                                well_typed(*t, v0) && serializes_to(*t, v0, *j);
                            let idx0 = match v0 {
                                ApiValue::Var(x, _) => x as int,
                                _ => 0,
                            };
                            assert(variant_serializes_to(
                                tag_view,
                                e.variants@[idx0],
                                match v0 {
                                    ApiValue::Var(_, xs) => xs@,
                                    _ => Seq::empty(),
                                },
                                *j,
                            ));
                            assert(e.variants@[idx0].name@ == name@);
                            assert(false);
                        }
                    }
                    Err(DeserializeError::UnknownVariant)
                },
                JsonValue::Object(entries) => {
                    let tag_value = match crate::json::lookup_value(entries, tag.as_str()) {
                        Some(JsonValue::String(name)) => name,
                        _ => {
                            proof {
                                if decode_owed(*t, *j) {
                                    let v0 = choose|v0: ApiValue|
                                        well_typed(*t, v0) && serializes_to(*t, v0, *j);
                                    let idx0 = match v0 {
                                        ApiValue::Var(x, _) => x as int,
                                        _ => 0,
                                    };
                                    let vs0 = match v0 {
                                        ApiValue::Var(_, xs) => xs@,
                                        _ => Seq::empty(),
                                    };
                                    assert(variant_serializes_to(
                                        tag_view,
                                        e.variants@[idx0],
                                        vs0,
                                        *j,
                                    ));
                                    lemma_serialized_tag_entry(
                                        tag_view,
                                        e.variants@[idx0],
                                        vs0,
                                        *j,
                                    );
                                    assert(false);
                                }
                            }
                            return Err(DeserializeError::ShapeMismatch);
                        },
                    };
                    let mut i: usize = 0;
                    while i < variants.len()
                        invariant
                            0 <= i <= variants@.len(),
                            forall|k: int|
                                0 <= k < i ==> (#[trigger] variants@[k]).name@ != tag_value@,
                        decreases variants@.len() - i,
                    {
                        if crate::text::str_eq(variants[i].name.as_str(), tag_value.as_str()) {
                            proof {
                                lemma_variant_index_first(variants@, tag_value@, i as int);
                                if decode_owed(*t, *j) {
                                    let v0 = choose|v0: ApiValue|
                                        well_typed(*t, v0) && serializes_to(*t, v0, *j);
                                    let idx0 = match v0 {
                                        ApiValue::Var(x, _) => x as int,
                                        _ => 0,
                                    };
                                    let vs0 = match v0 {
                                        ApiValue::Var(_, xs) => xs@,
                                        _ => Seq::empty(),
                                    };
                                    assert(variant_serializes_to(
                                        tag_view,
                                        e.variants@[idx0],
                                        vs0,
                                        *j,
                                    ));
                                    lemma_serialized_tag_entry(
                                        tag_view,
                                        e.variants@[idx0],
                                        vs0,
                                        *j,
                                    );
                                    assert(e.variants@[idx0].name@ == tag_value@);
                                    assert(i as int == idx0);
                                }
                            }
                            match &variants[i].fields {
                                Fields::Single(f) => {
                                    let inner_fs = match &f.ty {
                                        ApiType::Record(dd) => match &dd.fields {
                                            Fields::Named(fs) => fs,
                                            _ => {
                                                proof {
                                                    if decode_owed(*t, *j) {
                                                        assert(crate::derive::variant_ok(
                                                            e.variants@[i as int],
                                                        ));
                                                        assert(false);
                                                    }
                                                }
                                                return Err(
                                                    DeserializeError::InvalidDeclaration,
                                                );
                                            },
                                        },
                                        _ => {
                                            proof {
                                                if decode_owed(*t, *j) {
                                                    assert(crate::derive::variant_ok(
                                                        e.variants@[i as int],
                                                    ));
                                                    assert(false);
                                                }
                                            }
                                            return Err(DeserializeError::InvalidDeclaration);
                                        },
                                    };
                                    let ivs = match deserialize_named_fields(
                                        inner_fs,
                                        entries,
                                    ) {
                                        Ok(ivs) => ivs,
                                        Err(e2) => {
                                            proof {
                                                if decode_owed(*t, *j) {
                                                    let v0 = choose|v0: ApiValue|
                                                        well_typed(*t, v0) && serializes_to(
                                                            *t,
                                                            v0,
                                                            *j,
                                                        );
                                                    let vs0 = match v0 {
                                                        ApiValue::Var(_, xs) => xs@,
                                                        _ => Seq::empty(),
                                                    };
                                                    assert(variant_serializes_to(
                                                        tag_view,
                                                        e.variants@[i as int],
                                                        vs0,
                                                        *j,
                                                    ));
                                                    let ivs0 = match vs0[0] {
                                                        ApiValue::Rec(x) => x@,
                                                        _ => Seq::empty(),
                                                    };
                                                    assert(values_entries_ok(
                                                        inner_fs@,
                                                        ivs0,
                                                        entries@,
                                                        Set::empty().insert(tag_view),
                                                    ));
                                                    assert(crate::derive::variant_ok(
                                                        e.variants@[i as int],
                                                    ));
                                                    assert(variant_unambiguous(
                                                        tag_view,
                                                        e.variants@[i as int],
                                                    ));
                                                    assert(no_dup_names(all_field_keys(
                                                        inner_fs@,
                                                    )));
                                                    assert forall|k: Seq<char>|
                                                        all_field_keys(inner_fs@).contains(
                                                            k,
                                                        ) implies !Set::empty().insert(
                                                        tag_view,
                                                    ).contains(k) by {
                                                        assert(k != tag_view);
                                                    }
                                                    lemma_values_entries_elim(
                                                        inner_fs@,
                                                        ivs0,
                                                        entries@,
                                                        Set::empty().insert(tag_view),
                                                    );
                                                    assert(fields_typed(
                                                        e.variants@[i as int].fields,
                                                        vs0,
                                                    ));
                                                    assert(well_typed(f.ty, vs0[0]));
                                                    assert(fields_typed(
                                                        Fields::Named(*inner_fs),
                                                        ivs0,
                                                    ));
                                                    assert(fields_decode_owed(
                                                        inner_fs@,
                                                        entries@,
                                                    ));
                                                    assert(false);
                                                }
                                            }
                                            return Err(e2);
                                        },
                                    };
                                    let ghost ivsg = ivs@;
                                    proof {
                                        assert(fields_typed(Fields::Named(*inner_fs), ivsg));
                                    }
                                    let rec = ApiValue::Rec(ivs);
                                    proof {
                                        assert(well_typed(f.ty, rec));
                                    }
                                    let mut vs: Vec<ApiValue> = Vec::new();
                                    vs.push(rec);
                                    proof {
                                        assert(fields_typed(Fields::Single(*f), vs@));
                                        assert(fields_typed(e.variants@[i as int].fields, vs@));
                                        assert(variant_decode(e.variants@[i as int], entries@, vs@));
                                    }
                                    return Ok(ApiValue::Var(i, vs));
                                },
                                Fields::Named(fs) => {
                                    let vs = match deserialize_named_fields(fs, entries) {
                                        Ok(vs) => vs,
                                        Err(e2) => {
                                            proof {
                                                if decode_owed(*t, *j) {
                                                    let v0 = choose|v0: ApiValue|
                                                        well_typed(*t, v0) && serializes_to(
                                                            *t,
                                                            v0,
                                                            *j,
                                                        );
                                                    let vs0 = match v0 {
                                                        ApiValue::Var(_, xs) => xs@,
                                                        _ => Seq::empty(),
                                                    };
                                                    assert(variant_serializes_to(
                                                        tag_view,
                                                        e.variants@[i as int],
                                                        vs0,
                                                        *j,
                                                    ));
                                                    assert(values_entries_ok(
                                                        fs@,
                                                        vs0,
                                                        entries@,
                                                        Set::empty(),
                                                    ));
                                                    assert(crate::derive::variant_ok(
                                                        e.variants@[i as int],
                                                    ));
                                                    assert(variant_unambiguous(
                                                        tag_view,
                                                        e.variants@[i as int],
                                                    ));
                                                    lemma_values_entries_elim(
                                                        fs@,
                                                        vs0,
                                                        entries@,
                                                        Set::empty(),
                                                    );
                                                    assert(fields_typed(
                                                        e.variants@[i as int].fields,
                                                        vs0,
                                                    ));
                                                    assert(fields_typed(
                                                        Fields::Named(*fs),
                                                        vs0,
                                                    ));
                                                    assert(fields_decode_owed(fs@, entries@));
                                                    assert(false);
                                                }
                                            }
                                            return Err(e2);
                                        },
                                    };
                                    proof {
                                        assert(fields_typed(Fields::Named(*fs), vs@));
                                        assert(fields_typed(e.variants@[i as int].fields, vs@));
                                        assert(variant_decode(e.variants@[i as int], entries@, vs@));
                                    }
                                    return Ok(ApiValue::Var(i, vs));
                                },
                                _ => {
                                    proof {
                                        if decode_owed(*t, *j) {
                                            let v0 = choose|v0: ApiValue|
                                                well_typed(*t, v0) && serializes_to(*t, v0, *j);
                                            let vs0 = match v0 {
                                                ApiValue::Var(_, xs) => xs@,
                                                _ => Seq::empty(),
                                            };
                                            assert(variant_serializes_to(
                                                tag_view,
                                                e.variants@[i as int],
                                                vs0,
                                                *j,
                                            ));
                                            assert(false);
                                        }
                                    }
                                    return Err(DeserializeError::ShapeMismatch);
                                },
                            }
                        }
                        i = i + 1;
                    }
                    proof {
                        if decode_owed(*t, *j) {
                            let v0 = choose|v0: ApiValue|
                                well_typed(*t, v0) && serializes_to(*t, v0, *j);
                            let idx0 = match v0 {
                                ApiValue::Var(x, _) => x as int,
                                _ => 0,
                            };
                            let vs0 = match v0 {
                                ApiValue::Var(_, xs) => xs@,
                                _ => Seq::empty(),
                            };
                            assert(variant_serializes_to(
                                tag_view,
                                e.variants@[idx0],
                                vs0,
                                *j,
                            ));
                            lemma_serialized_tag_entry(tag_view, e.variants@[idx0], vs0, *j);
                            assert(e.variants@[idx0].name@ == tag_value@);
                            assert(false);
                        }
                    }
                    Err(DeserializeError::UnknownVariant)
                },
                _ => {
                    proof {
                        if decode_owed(*t, *j) {
                            let v0 = choose|v0: ApiValue|
                                well_typed(*t, v0) && serializes_to(*t, v0, *j);
                            let idx0 = match v0 {
                                ApiValue::Var(x, _) => x as int,
                                _ => 0,
                            };
                            assert(variant_serializes_to(
                                tag_view,
                                e.variants@[idx0],
                                match v0 {
                                    ApiValue::Var(_, xs) => xs@,
                                    _ => Seq::empty(),
                                },
                                *j,
                            ));
                            assert(false);
                        }
                    }
                    Err(DeserializeError::ShapeMismatch)
                },
            }
        },
    }
}

/// A variant serialized into an object carries its name as a string under
/// the discriminant key: directly for a wrapped record, and for named
/// fields because an unambiguous variant has no field named like the tag.
proof fn lemma_serialized_tag_entry(
    tag: Seq<char>,
    vd: VariantDecl,
    vs: Seq<ApiValue>,
    j: JsonValue,
)
    requires
        variant_serializes_to(tag, vd, vs, j),
        variant_unambiguous(tag, vd),
        j is Object,
    ensures
        j matches JsonValue::Object(entries) && (jlookup(entries@, tag) matches Some(jv) && (jv
            matches JsonValue::String(nm) && nm@ == vd.name@)),
{
    match vd.fields {
        Fields::Unit => {},
        Fields::Single(_) => {},
        Fields::Unnamed(_) => {},
        Fields::Named(fs) => {
            if record_key_names(fs@).contains(tag) {
                lemma_rkn_sub_all(fs@, tag);
            }
        },
    }
}

} // verus!

verus! {

// ---------------------------------------------------------------------------
// Decoding inverts encoding: the round-trip law.
// ---------------------------------------------------------------------------
/// Deep structural equality of typed values, compared by content.
pub open spec fn value_eq(a: ApiValue, b: ApiValue) -> bool
    decreases a, 0int,
{
    match (a, b) {
        (ApiValue::Null, ApiValue::Null) => true,
        (ApiValue::Bool(x), ApiValue::Bool(y)) => x == y,
        (ApiValue::Num(x), ApiValue::Num(y)) => x == y,
        (ApiValue::Str(x), ApiValue::Str(y)) => x@ == y@,
        (ApiValue::Arr(xs), ApiValue::Arr(ys)) => values_eq(xs@, ys@),
        (ApiValue::Dict(xs), ApiValue::Dict(ys)) => dict_eq(xs@, ys@),
        (ApiValue::Rec(xs), ApiValue::Rec(ys)) => values_eq(xs@, ys@),
        (ApiValue::Var(i, xs), ApiValue::Var(k, ys)) => i == k && values_eq(xs@, ys@),
        (ApiValue::Absent, ApiValue::Absent) => true,
        (ApiValue::Present(x), ApiValue::Present(y)) => value_eq(*x, *y),
        _ => false,
    }
}

/// Pointwise deep equality of value sequences.
pub open spec fn values_eq(a: Seq<ApiValue>, b: Seq<ApiValue>) -> bool
    decreases a, 1int,
{
    if a.len() != b.len() {
        false
    } else if a.len() == 0 {
        true
    } else {
        value_eq(a[0], b[0]) && values_eq(a.drop_first(), b.drop_first())
    }
}

/// Pointwise deep equality of map entries: names and values.
pub open spec fn dict_eq(a: Seq<(String, ApiValue)>, b: Seq<(String, ApiValue)>) -> bool
    decreases a, 1int,
{
    if a.len() != b.len() {
        false
    } else if a.len() == 0 {
        true
    } else {
        a[0].0@ == b[0].0@ && value_eq(a[0].1, b[0].1) && dict_eq(a.drop_first(), b.drop_first())
    }
}

/// Pointwise equality of elements gives `values_eq`.
proof fn lemma_values_eq_intro(a: Seq<ApiValue>, b: Seq<ApiValue>)
    requires
        a.len() == b.len(),
        forall|i: int| 0 <= i < a.len() ==> value_eq(#[trigger] a[i], b[i]),
    ensures
        values_eq(a, b),
    decreases a.len(),
{
    if a.len() > 0 {
        assert(value_eq(a[0], b[0]));
        assert(forall|i: int|
            0 <= i < a.drop_first().len() ==> a.drop_first()[i] == a[i + 1] && b.drop_first()[i]
                == b[i + 1]);
        lemma_values_eq_intro(a.drop_first(), b.drop_first());
    }
}

/// Pointwise equality of entries gives `dict_eq`.
proof fn lemma_dict_eq_intro(a: Seq<(String, ApiValue)>, b: Seq<(String, ApiValue)>)
    requires
        a.len() == b.len(),
        forall|i: int| 0 <= i < a.len() ==> (#[trigger] a[i]).0@ == b[i].0@,
        forall|i: int| 0 <= i < a.len() ==> value_eq((#[trigger] a[i]).1, b[i].1),
    ensures
        dict_eq(a, b),
    decreases a.len(),
{
    if a.len() > 0 {
        assert(a[0].0@ == b[0].0@ && value_eq(a[0].1, b[0].1));
        assert(forall|i: int|
            0 <= i < a.drop_first().len() ==> a.drop_first()[i] == a[i + 1] && b.drop_first()[i]
                == b[i + 1]);
        lemma_dict_eq_intro(a.drop_first(), b.drop_first());
    }
}

/// Two plain values that copy to the same JSON value are deep equal.
proof fn lemma_plain_to_inverts(a: ApiValue, b: ApiValue, j: JsonValue)
    requires
        plain_to(a, j),
        plain_to(b, j),
    ensures
        value_eq(a, b),
    decreases j,
{
    match j {
        JsonValue::Array(js) => {
            match (a, b) {
                (ApiValue::Arr(xs), ApiValue::Arr(ys)) => {
                    assert forall|i: int| 0 <= i < xs@.len() implies value_eq(
                        #[trigger] xs@[i],
                        ys@[i],
                    ) by {
                        lemma_plain_to_inverts(xs@[i], ys@[i], js@[i]);
                    }
                    lemma_values_eq_intro(xs@, ys@);
                },
                _ => {},
            }
        },
        JsonValue::Object(entries) => {
            match (a, b) {
                (ApiValue::Dict(xs), ApiValue::Dict(ys)) => {
                    assert forall|i: int| 0 <= i < xs@.len() implies (#[trigger] xs@[i]).0@
                        == ys@[i].0@ by {
                        assert(xs@[i].0@ == entries@[i].0@);
                        assert(ys@[i].0@ == entries@[i].0@);
                    }
                    assert forall|i: int| 0 <= i < xs@.len() implies value_eq(
                        (#[trigger] xs@[i]).1,
                        ys@[i].1,
                    ) by {
                        lemma_plain_to_inverts(xs@[i].1, ys@[i].1, entries@[i].1);
                    }
                    lemma_dict_eq_intro(xs@, ys@);
                },
                _ => {},
            }
        },
        _ => {},
    }
}

/// A value of a type that cannot be null never serializes to null.
proof fn lemma_not_nullable_not_null(t: ApiType, v: ApiValue, j: JsonValue)
    requires
        !nullable(t),
        serializes_to(t, v, j),
    ensures
        !(j is Null),
    decreases t,
{
    match t {
        ApiType::Record(d) => match d.fields {
            Fields::Single(f) => {
                match v {
                    ApiValue::Rec(vs) => {
                        lemma_not_nullable_not_null(f.ty, vs@[0], j);
                    },
                    _ => {},
                }
            },
            _ => {},
        },
        ApiType::Union(e) => {
            match v {
                ApiValue::Var(idx, vs) => {
                    assert(variant_serializes_to(
                        spec_enum_tag(*e),
                        e.variants@[idx as int],
                        vs@,
                        j,
                    ));
                },
                _ => {},
            }
        },
        _ => {},
    }
}

/// A found variant index names a matching variant.
proof fn lemma_variant_index_sound(variants: Seq<VariantDecl>, nm: Seq<char>, i: int)
    requires
        variant_index_of(variants, nm) == Some(i),
    ensures
        0 <= i < variants.len(),
        variants[i].name@ == nm,
    decreases variants.len(),
{
    if variants.len() > 0 && variants[0].name@ != nm {
        lemma_variant_index_sound(variants.drop_first(), nm, i - 1);
        assert(variants.drop_first()[i - 1] == variants[i]);
    }
}

/// The round-trip law: decoding the serialization of a value of an
/// accepted, unambiguous declaration reconstructs a deep-equal value.
pub proof fn lemma_decode_inverts_encode(t: ApiType, v0: ApiValue, j: JsonValue, v: ApiValue)
    requires
        decl_ok(t),
        unambiguous(t),
        well_typed(t, v0),
        serializes_to(t, v0, j),
        deserializes_to(t, j, v),
    ensures
        value_eq(v0, v),
    decreases t, 9int,
{
    match t {
        ApiType::Number => {},
        ApiType::Boolean => {},
        ApiType::Text => {},
        ApiType::Unit => {},
        ApiType::AnyJson => {
            lemma_plain_to_inverts(v0, v, j);
        },
        ApiType::Uuid => {},
        ApiType::DateTime => {},
        ApiType::ArrayOf(inner) => {
            match (v0, v, j) {
                (ApiValue::Arr(xs0), ApiValue::Arr(xs), JsonValue::Array(js)) => {
                    assert forall|i: int| 0 <= i < xs0@.len() implies value_eq(
                        #[trigger] xs0@[i],
                        xs@[i],
                    ) by {
                        lemma_decode_inverts_encode(*inner, xs0@[i], js@[i], xs@[i]);
                    }
                    lemma_values_eq_intro(xs0@, xs@);
                },
                _ => {},
            }
        },
        ApiType::Tuple(ts) => {
            match (v0, v, j) {
                (ApiValue::Arr(xs0), ApiValue::Arr(xs), JsonValue::Array(js)) => {
                    assert forall|i: int| 0 <= i < xs0@.len() implies value_eq(
                        #[trigger] xs0@[i],
                        xs@[i],
                    ) by {
                        lemma_decode_inverts_encode(ts@[i], xs0@[i], js@[i], xs@[i]);
                    }
                    lemma_values_eq_intro(xs0@, xs@);
                },
                _ => {},
            }
        },
        ApiType::MapOf(inner) => {
            match (v0, v, j) {
                (ApiValue::Dict(es0), ApiValue::Dict(es), JsonValue::Object(entries)) => {
                    assert forall|i: int| 0 <= i < es0@.len() implies value_eq(
                        (#[trigger] es0@[i]).1,
                        es@[i].1,
                    ) by {
                        lemma_decode_inverts_encode(
                            *inner,
                            es0@[i].1,
                            entries@[i].1,
                            es@[i].1,
                        );
                    }
                    lemma_dict_eq_intro(es0@, es@);
                },
                _ => {},
            }
        },
        ApiType::Optional(inner) => {
            if j is Null {
                match v0 {
                    ApiValue::Present(b0) => {
                        lemma_not_nullable_not_null(*inner, *b0, j);
                    },
                    _ => {},
                }
            } else {
                match (v0, v) {
                    (ApiValue::Present(b0), ApiValue::Present(b)) => {
                        lemma_decode_inverts_encode(*inner, *b0, j, *b);
                    },
                    _ => {},
                }
            }
        },
        ApiType::Record(d) => match d.fields {
            Fields::Unit => {},
            Fields::Single(f) => {
                match (v0, v) {
                    (ApiValue::Rec(xs0), ApiValue::Rec(xs)) => {
                        assert(fields_typed(d.fields, xs0@));
                        assert(crate::derive::field_ok(f));
                        lemma_decode_inverts_encode(f.ty, xs0@[0], j, xs@[0]);
                        assert(values_eq(xs0@, xs@)) by {
                            assert(xs0@.len() == 1 && xs@.len() == 1);
                            assert(value_eq(xs0@[0], xs@[0]));
                            assert(xs0@.drop_first().len() == 0);
                            assert(values_eq(xs0@.drop_first(), xs@.drop_first()));
                        }
                    },
                    _ => {},
                }
            },
            Fields::Unnamed(fs) => {
                match (v0, v, j) {
                    (ApiValue::Rec(xs0), ApiValue::Rec(xs), JsonValue::Array(js)) => {
                        assert(fields_typed(d.fields, xs0@));
                        assert forall|i: int| 0 <= i < xs0@.len() implies value_eq(
                            #[trigger] xs0@[i],
                            xs@[i],
                        ) by {
                            assert(crate::derive::field_ok(fs@[i]));
                            lemma_decode_inverts_encode(fs@[i].ty, xs0@[i], js@[i], xs@[i]);
                        }
                        lemma_values_eq_intro(xs0@, xs@);
                    },
                    _ => {},
                }
            },
            Fields::Named(fs) => {
                match (v0, v, j) {
                    (ApiValue::Rec(xs0), ApiValue::Rec(xs), JsonValue::Object(entries)) => {
                        assert(fields_typed(d.fields, xs0@));
                        lemma_values_entries_elim(fs@, xs0@, entries@, Set::empty());
                        lemma_fields_invert(fs@, xs0@, xs@, entries@);
                        lemma_values_eq_intro(xs0@, xs@);
                    },
                    _ => {},
                }
            },
        },
        ApiType::Union(e) => {
            let tag = spec_enum_tag(*e);
            match v0 {
                ApiValue::Var(idx0, vs0) => {
                    assert(crate::derive::variant_ok(e.variants@[idx0 as int]));
                    assert(variant_unambiguous(tag, e.variants@[idx0 as int]));
                    assert(fields_typed(e.variants@[idx0 as int].fields, vs0@));
                    match j {
                        JsonValue::String(name) => {
                            assert(variant_serializes_to(
                                tag,
                                e.variants@[idx0 as int],
                                vs0@,
                                j,
                            ));
                            match variant_index_of(e.variants@, name@) {
                                Some(i) => {
                                    lemma_variant_index_sound(e.variants@, name@, i);
                                    assert(e.variants@[idx0 as int].name@ == name@);
                                    assert(i == idx0 as int);
                                    match v {
                                        ApiValue::Var(_, vs) => {
                                            assert(values_eq(vs0@, vs@));
                                        },
                                        _ => {},
                                    }
                                },
                                None => {},
                            }
                        },
                        JsonValue::Object(entries) => {
                            assert(variant_serializes_to(
                                tag,
                                e.variants@[idx0 as int],
                                vs0@,
                                j,
                            ));
                            lemma_serialized_tag_entry(
                                tag,
                                e.variants@[idx0 as int],
                                vs0@,
                                j,
                            );
                            match jlookup(entries@, tag) {
                                Some(jv) => match jv {
                                    JsonValue::String(nm) => {
                                        assert(nm@ == e.variants@[idx0 as int].name@);
                                        match variant_index_of(e.variants@, nm@) {
                                            Some(i) => {
                                                lemma_variant_index_sound(e.variants@, nm@, i);
                                                assert(i == idx0 as int);
                                                match v {
                                                    ApiValue::Var(_, vs) => {
                                                        lemma_variant_invert(
                                                            tag,
                                                            e.variants@[idx0 as int],
                                                            vs0@,
                                                            vs@,
                                                            j,
                                                            entries@,
                                                        );
                                                    },
                                                    _ => {},
                                                }
                                            },
                                            None => {},
                                        }
                                    },
                                    _ => {},
                                },
                                None => {},
                            }
                        },
                        _ => {},
                    }
                },
                _ => {},
            }
        },
    }
}

/// One variant's serialized and decoded payloads are deep equal.
proof fn lemma_variant_invert(
    tag: Seq<char>,
    vd: VariantDecl,
    vs0: Seq<ApiValue>,
    vs: Seq<ApiValue>,
    j: JsonValue,
    entries: Seq<(String, JsonValue)>,
)
    requires
        crate::derive::variant_ok(vd),
        variant_unambiguous(tag, vd),
        fields_typed(vd.fields, vs0),
        variant_serializes_to(tag, vd, vs0, j),
        j matches JsonValue::Object(ev) && ev@ == entries,
        variant_decode(vd, entries, vs),
    ensures
        values_eq(vs0, vs),
    decreases vd, 10int,
{
    match vd.fields {
        Fields::Unit => {},
        Fields::Single(f) => {
            match f.ty {
                ApiType::Record(d) => match d.fields {
                    Fields::Named(fs) => {
                        match (vs0[0], vs[0]) {
                            (ApiValue::Rec(ivs0), ApiValue::Rec(ivs)) => {
                                assert(well_typed(f.ty, vs0[0]));
                                assert(fields_typed(d.fields, ivs0@));
                                assert forall|k: Seq<char>|
                                    all_field_keys(fs@).contains(k) implies !Set::empty().insert(
                                    tag,
                                ).contains(k) by {
                                    assert(k != tag);
                                }
                                lemma_values_entries_elim(
                                    fs@,
                                    ivs0@,
                                    entries,
                                    Set::empty().insert(tag),
                                );
                                lemma_fields_invert(fs@, ivs0@, ivs@, entries);
                                lemma_values_eq_intro(ivs0@, ivs@);
                                assert(value_eq(vs0[0], vs[0]));
                                assert(values_eq(vs0, vs)) by {
                                    assert(vs0.len() == 1 && vs.len() == 1);
                                    assert(value_eq(vs0[0], vs[0]));
                                    assert(vs0.drop_first().len() == 0);
                                    assert(values_eq(vs0.drop_first(), vs.drop_first()));
                                }
                            },
                            _ => {},
                        }
                    },
                    _ => {},
                },
                _ => {},
            }
        },
        Fields::Unnamed(_) => {},
        Fields::Named(fs) => {
            lemma_values_entries_elim(fs@, vs0, entries, Set::empty());
            lemma_fields_invert(fs@, vs0, vs, entries);
            lemma_values_eq_intro(vs0, vs);
        },
    }
}

/// With each field's entry facts in hand, the decoded values match the
/// serialized ones, field by field.
proof fn lemma_fields_invert(
    fields: Seq<NamedField>,
    vs0: Seq<ApiValue>,
    vs: Seq<ApiValue>,
    entries: Seq<(String, JsonValue)>,
)
    requires
        forall|i: int| 0 <= i < fields.len() ==> named_field_ok(#[trigger] fields[i]),
        forall|i: int| 0 <= i < fields.len() ==> unambiguous((#[trigger] fields[i]).ty),
        no_dup_names(all_field_keys(fields)),
        vs0.len() == fields.len(),
        forall|i: int| 0 <= i < fields.len() ==> well_typed((#[trigger] fields[i]).ty, vs0[i]),
        forall|i: int|
            0 <= i < fields.len() ==> value_entry_ok(#[trigger] fields[i], vs0[i], entries, Set::empty()),
        fields_decode(fields, entries, vs),
    ensures
        vs.len() == fields.len(),
        forall|i: int| 0 <= i < fields.len() ==> value_eq(vs0[i], #[trigger] vs[i]),
    decreases fields, 8int,
{
    assert forall|i: int| 0 <= i < fields.len() implies value_eq(vs0[i], #[trigger] vs[i]) by {
        let f = fields[i];
        assert(value_entry_ok(f, vs0[i], entries, Set::empty()));
        assert(field_decode(f, entries, vs[i]));
        lemma_field_invert(f, vs0[i], vs[i], entries);
    }
}

/// One field's serialized and decoded values are deep equal.
proof fn lemma_field_invert(
    f: NamedField,
    v0: ApiValue,
    v: ApiValue,
    entries: Seq<(String, JsonValue)>,
)
    requires
        named_field_ok(f),
        unambiguous(f.ty),
        well_typed(f.ty, v0),
        value_entry_ok(f, v0, entries, Set::empty()),
        field_decode(f, entries, v),
    ensures
        value_eq(v0, v),
    decreases f, 7int,
{
    if !spec_flatten(f.attrs@) {
        match jlookup(entries, f.name@) {
            Some(jv) => {
                lemma_decode_inverts_encode(f.ty, v0, jv, v);
            },
            None => {},
        }
    } else {
        match f.ty {
            ApiType::Record(d) => match d.fields {
                Fields::Named(fs) => {
                    match (v0, v) {
                        (ApiValue::Rec(ivs0), ApiValue::Rec(ivs)) => {
                            assert(fields_typed(d.fields, ivs0@));
                            assert(crate::derive::decl_ok(f.ty));
                            lemma_values_entries_elim(fs@, ivs0@, entries, Set::empty());
                            lemma_fields_invert(fs@, ivs0@, ivs@, entries);
                            lemma_values_eq_intro(ivs0@, ivs@);
                        },
                        _ => {},
                    }
                },
                _ => {},
            },
            _ => {},
        }
    }
}

} // verus!
