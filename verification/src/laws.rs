//! The laws that tie the pieces together: serialized values fit the derived
//! schema, derivation is deterministic, and malformed unions are rejected.

use vstd::prelude::*;
use crate::decl::{ApiType, Fields, NamedField, spec_flatten};
use crate::derive::{
    decl_ok, derives_to, field_derives_to, field_entry_ok, field_key_names, field_ok,
    fields_entries_ok, has_nonunit_variant, has_unit_variant, is_tag_node, lemma_nia_contains,
    lemma_rkn_no_dup, lookup_node, named_field_derives_to, named_field_ok, names_insert, names_of,
    no_dup_names, record_key_names, rkn_from, shape_derives, spec_enum_tag, variant_derives_to,
    variant_ok,
};
use crate::json::{JsonValue, entry_fits, jlookup, jnames_of, spec_validate};
use crate::schema::{ApiBodyInfo, ApiBodyType, info_eq, lemma_infos_eq_intro, lemma_keys_eq_intro, shape_eq};
use crate::value::{
    ApiValue, fields_typed, serializes_to, value_entry_ok, values_entries_ok,
    variant_serializes_to, well_typed,
};

verus! {

/// For every merged key that no later field overwrites, the serialized
/// object and the derived object hold a value and a node that fit.
proof fn lemma_entries_fit(
    fields: Seq<NamedField>,
    vs: Seq<ApiValue>,
    entries: Seq<(String, JsonValue)>,
    keys: Seq<(String, ApiBodyInfo)>,
    sh: Set<Seq<char>>,
)
    requires
        forall|i: int| 0 <= i < fields.len() ==> named_field_ok(#[trigger] fields[i]),
        forall|i: int| 0 <= i < fields.len() ==> well_typed((#[trigger] fields[i]).ty, vs[i]),
        vs.len() == fields.len(),
        values_entries_ok(fields, vs, entries, sh),
        fields_entries_ok(fields, keys, sh),
    ensures
        forall|k: Seq<char>|
            record_key_names(fields).contains(k) && !sh.contains(k) ==> ((#[trigger] jlookup(
                entries,
                k,
            )) matches Some(jv) && lookup_node(keys, k) matches Some(node) && spec_validate(
                jv,
                node,
            )),
    decreases fields, 0int,
{
    if fields.len() == 0 {
        assert(record_key_names(fields) =~= Seq::<Seq<char>>::empty());
    } else {
        let f = fields.last();
        let prefix = fields.drop_last();
        let fk = field_key_names(f);
        assert(record_key_names(fields) == crate::derive::names_insert_all(
            record_key_names(prefix),
            fk,
        ));
        lemma_entries_fit(prefix, vs.drop_last(), entries, keys, sh.union(fk.to_set()));
        assert forall|k: Seq<char>|
            record_key_names(fields).contains(k) && !sh.contains(k) implies ((#[trigger] jlookup(
            entries,
            k,
        )) matches Some(jv) && lookup_node(keys, k) matches Some(node) && spec_validate(
            jv,
            node,
        )) by {
            lemma_nia_contains(record_key_names(prefix), fk, k);
            if fk.contains(k) {
                lemma_field_entry_fits(f, vs.last(), entries, keys, sh, k);
            } else {
                assert(record_key_names(prefix).contains(k));
                assert(!sh.union(fk.to_set()).contains(k));
            }
        }
    }
}

/// One field's own keys are honored: its serialized value fits its node.
proof fn lemma_field_entry_fits(
    f: NamedField,
    val: ApiValue,
    entries: Seq<(String, JsonValue)>,
    keys: Seq<(String, ApiBodyInfo)>,
    sh: Set<Seq<char>>,
    k: Seq<char>,
)
    requires
        named_field_ok(f),
        well_typed(f.ty, val),
        value_entry_ok(f, val, entries, sh),
        field_entry_ok(f, keys, sh),
        field_key_names(f).contains(k),
        !sh.contains(k),
    ensures
        jlookup(entries, k) matches Some(jv) && lookup_node(keys, k) matches Some(node)
            && spec_validate(jv, node),
    decreases f, 1int,
{
    if !spec_flatten(f.attrs@) {
        assert(field_key_names(f) == seq![f.name@]);
        assert(k == f.name@) by {
            let i = choose|i: int| 0 <= i < field_key_names(f).len() && field_key_names(f)[i] == k;
            assert(field_key_names(f)[0] == f.name@);
        }
        let jv = jlookup(entries, k)->Some_0;
        let node = lookup_node(keys, k)->Some_0;
        assert(serializes_to(f.ty, val, jv));
        assert(named_field_derives_to(f, node));
        assert(shape_derives(f.ty, node.ty));
        lemma_serialized_fits_schema(f.ty, val, jv, node);
    } else {
        match f.ty {
            ApiType::Record(d) => match d.fields {
                Fields::Named(fs) => {
                    let ivs = match val {
                        ApiValue::Rec(x) => x@,
                        _ => Seq::empty(),
                    };
                    assert(val matches ApiValue::Rec(x) && x@ == ivs);
                    assert(fields_typed(d.fields, ivs));
                    assert(decl_ok(f.ty));
                    assert(forall|i: int|
                        0 <= i < fs@.len() ==> named_field_ok(#[trigger] fs@[i]));
                    assert(forall|i: int|
                        0 <= i < fs@.len() ==> well_typed((#[trigger] fs@[i]).ty, ivs[i]));
                    lemma_entries_fit(fs@, ivs, entries, keys, sh);
                },
                _ => {},
            },
            _ => {},
        }
    }
}

/// A serialized value fits every schema node whose shape its type derives.
/// Validation reads shapes only, so a description override does not matter.
proof fn lemma_serialized_fits_schema(t: ApiType, v: ApiValue, j: JsonValue, s: ApiBodyInfo)
    requires
        decl_ok(t),
        well_typed(t, v),
        serializes_to(t, v, j),
        shape_derives(t, s.ty),
    ensures
        spec_validate(j, s),
    decreases t, 2int,
{
    match t {
        ApiType::Number => {},
        ApiType::Boolean => {},
        ApiType::Text => {},
        ApiType::Unit => {},
        ApiType::AnyJson => {},
        ApiType::Uuid => {},
        ApiType::DateTime => {},
        ApiType::ArrayOf(inner) => {
            match (v, j, s.ty) {
                (ApiValue::Arr(vs), JsonValue::Array(js), ApiBodyType::ArrayOf { value }) => {
                    assert forall|i: int| 0 <= i < js@.len() implies spec_validate(
                        #[trigger] js@[i],
                        *value,
                    ) by {
                        assert(derives_to(*inner, *value));
                        lemma_serialized_fits_schema(*inner, vs@[i], js@[i], *value);
                    }
                },
                _ => {},
            }
        },
        ApiType::Tuple(ts) => {
            match (v, j, s.ty) {
                (ApiValue::Arr(vs), JsonValue::Array(js), ApiBodyType::TupleOf { values }) => {
                    assert forall|i: int| 0 <= i < js@.len() implies spec_validate(
                        #[trigger] js@[i],
                        values@[i],
                    ) by {
                        assert(derives_to(ts@[i], values@[i]));
                        lemma_serialized_fits_schema(ts@[i], vs@[i], js@[i], values@[i]);
                    }
                },
                _ => {},
            }
        },
        ApiType::MapOf(inner) => {
            match (v, j, s.ty) {
                (ApiValue::Dict(es), JsonValue::Object(entries), ApiBodyType::ObjectOf {
                    value,
                }) => {
                    assert(jnames_of(entries@) =~= crate::value::dict_names(es@));
                    assert forall|i: int| 0 <= i < entries@.len() implies spec_validate(
                        (#[trigger] entries@[i]).1,
                        *value,
                    ) by {
                        assert(derives_to(*inner, *value));
                        lemma_serialized_fits_schema(*inner, es@[i].1, entries@[i].1, *value);
                    }
                },
                _ => {},
            }
        },
        ApiType::Optional(inner) => {
            match s.ty {
                ApiBodyType::Optional { value } => {
                    if v is Absent {
                    } else {
                        match v {
                            ApiValue::Present(b) => {
                                assert(derives_to(*inner, *value));
                                lemma_serialized_fits_schema(*inner, *b, j, *value);
                            },
                            _ => {},
                        }
                    }
                },
                _ => {},
            }
        },
        ApiType::Record(d) => {
            match d.fields {
                Fields::Unit => {},
                Fields::Single(f) => {
                    match v {
                        ApiValue::Rec(vs) => {
                            assert(field_ok(f));
                            assert(fields_typed(d.fields, vs@));
                            lemma_serialized_fits_schema(f.ty, vs@[0], j, s);
                        },
                        _ => {},
                    }
                },
                Fields::Unnamed(fs) => {
                    match (v, j, s.ty) {
                        (ApiValue::Rec(vs), JsonValue::Array(js), ApiBodyType::TupleOf {
                            values,
                        }) => {
                            assert(fields_typed(d.fields, vs@));
                            assert forall|i: int| 0 <= i < js@.len() implies spec_validate(
                                #[trigger] js@[i],
                                values@[i],
                            ) by {
                                assert(field_ok(fs@[i]));
                                assert(field_derives_to(fs@[i], values@[i]));
                                assert(shape_derives(fs@[i].ty, values@[i].ty));
                                assert(well_typed(fs@[i].ty, vs@[i]));
                                lemma_serialized_fits_schema(
                                    fs@[i].ty,
                                    vs@[i],
                                    js@[i],
                                    values@[i],
                                );
                            }
                        },
                        _ => {},
                    }
                },
                Fields::Named(fs) => {
                    match (v, j, s.ty) {
                        (ApiValue::Rec(vs), JsonValue::Object(entries), ApiBodyType::Object {
                            keys,
                        }) => {
                            assert(fields_typed(d.fields, vs@));
                            lemma_rkn_no_dup(Seq::empty(), fs@);
                            assert(no_dup_names(names_of(keys@)));
                            assert forall|k: Seq<char>|
                                #![trigger names_of(keys@).contains(k)]
                                names_of(keys@).contains(k) implies ((
                            record_key_names(fs@).contains(k) && !Set::<Seq<char>>::empty().contains(
                                k,
                            )) || ((jlookup(entries@, k) matches Some(jv) && jv
                                matches JsonValue::String(s2) && s2@ == Seq::<char>::empty()) && (
                            lookup_node(keys@, k) matches Some(node) && is_tag_node(
                                node,
                                Seq::empty(),
                            )))) by {}
                            lemma_object_keys_fit(
                                fs@,
                                vs@,
                                entries@,
                                keys@,
                                Set::empty(),
                                Seq::empty(),
                            );
                            assert(no_dup_names(jnames_of(entries@)));
                            crate::json::lemma_keys_fit_intro(entries@, keys@);
                            crate::json::lemma_all_names_in_intro(entries@, names_of(keys@));
                            assert(spec_validate(j, s));
                        },
                        _ => {},
                    }
                },
            }
        },
        ApiType::Union(e) => {
            match (v, s.ty) {
                (ApiValue::Var(idx, vs), ApiBodyType::OneOf { values }) => {
                    let tag = spec_enum_tag(*e);
                    let vd = e.variants@[idx as int];
                    assert(variant_ok(vd));
                    assert(variant_derives_to(tag, vd, values@[idx as int]));
                    assert(variant_serializes_to(tag, vd, vs@, j));
                    lemma_variant_validates(tag, vd, vs@, j, values@[idx as int]);
                    assert(spec_validate(j, values@[idx as int]));
                },
                _ => {},
            }
        },
    }
}

/// A serialized variant fits the alternative its variant derives.
proof fn lemma_variant_validates(
    tag: Seq<char>,
    vd: crate::decl::VariantDecl,
    vs: Seq<ApiValue>,
    j: JsonValue,
    s: ApiBodyInfo,
)
    requires
        variant_ok(vd),
        fields_typed(vd.fields, vs),
        variant_derives_to(tag, vd, s),
        variant_serializes_to(tag, vd, vs, j),
    ensures
        spec_validate(j, s),
    decreases vd, 3int,
{
    match vd.fields {
        Fields::Unit => {},
        Fields::Single(f) => {
            match f.ty {
                ApiType::Record(d) => match d.fields {
                    Fields::Named(fs) => {
                        let ivs = match vs[0] {
                            ApiValue::Rec(x) => x@,
                            _ => Seq::empty(),
                        };
                        assert(vs[0] matches ApiValue::Rec(x) && x@ == ivs);
                        assert(well_typed(f.ty, vs[0]));
                        assert(fields_typed(d.fields, ivs));
                        assert(decl_ok(f.ty));
                        match (j, s.ty) {
                            (JsonValue::Object(entries), ApiBodyType::Object { keys }) => {
                                lemma_rkn_no_dup(Seq::empty(), fs@);
                                crate::derive::lemma_names_insert_no_dup(
                                    record_key_names(fs@),
                                    tag,
                                );
                                assert(no_dup_names(names_of(keys@)));
                                assert forall|k: Seq<char>|
                                    #![trigger names_of(keys@).contains(k)]
                                    names_of(keys@).contains(
                                    k,
                                ) implies ((record_key_names(fs@).contains(k) && !Set::empty().insert(
                                    tag,
                                ).contains(k)) || ((jlookup(entries@, k) matches Some(jv) && jv
                                    matches JsonValue::String(s2) && s2@ == vd.name@) && (
                                lookup_node(keys@, k) matches Some(node) && is_tag_node(
                                    node,
                                    vd.name@,
                                )))) by {
                                    crate::derive::lemma_names_insert_contains(
                                        record_key_names(fs@),
                                        tag,
                                        k,
                                    );
                                    if k == tag {
                                    } else {
                                        assert(record_key_names(fs@).contains(k));
                                    }
                                }
                                lemma_object_keys_fit(
                                    fs@,
                                    ivs,
                                    entries@,
                                    keys@,
                                    Set::empty().insert(tag),
                                    vd.name@,
                                );
                                assert(no_dup_names(jnames_of(entries@)));
                                crate::json::lemma_keys_fit_intro(entries@, keys@);
                                crate::json::lemma_all_names_in_intro(entries@, names_of(keys@));
                                assert(spec_validate(j, s));
                            },
                            _ => {},
                        }
                    },
                    _ => {},
                },
                _ => {},
            }
        },
        Fields::Unnamed(_) => {},
        Fields::Named(fs) => {
            match (j, s.ty) {
                (JsonValue::Object(entries), ApiBodyType::Object { keys }) => {
                    assert(forall|i: int|
                        0 <= i < fs@.len() ==> named_field_ok(#[trigger] fs@[i]));
                    assert(forall|i: int|
                        0 <= i < fs@.len() ==> well_typed((#[trigger] fs@[i]).ty, vs[i]));
                    assert(no_dup_names(seq![tag])) by {
                        assert(seq![tag].len() == 1);
                    }
                    lemma_rkn_no_dup(seq![tag], fs@);
                    assert(no_dup_names(names_of(keys@)));
                    assert forall|k: Seq<char>|
                        #![trigger names_of(keys@).contains(k)]
                        names_of(keys@).contains(k) implies ((
                    record_key_names(fs@).contains(k) && !Set::<Seq<char>>::empty().contains(k))
                        || ((jlookup(entries@, k) matches Some(jv) && jv
                        matches JsonValue::String(s2) && s2@ == vd.name@) && (lookup_node(
                        keys@,
                        k,
                    ) matches Some(node) && is_tag_node(node, vd.name@)))) by {
                        crate::derive::lemma_rkn_covered(seq![tag], fs@, k);
                        if record_key_names(fs@).contains(k) {
                        } else {
                            assert(seq![tag].contains(k));
                            assert(k == tag) by {
                                let i = choose|i: int|
                                    0 <= i < seq![tag].len() && seq![tag][i] == k;
                                assert(seq![tag][0] == tag);
                            }
                        }
                    }
                    lemma_object_keys_fit(fs@, vs, entries@, keys@, Set::empty(), vd.name@);
                    assert(no_dup_names(jnames_of(entries@)));
                    crate::json::lemma_keys_fit_intro(entries@, keys@);
                    crate::json::lemma_all_names_in_intro(entries@, names_of(keys@));
                    assert(spec_validate(j, s));
                },
                _ => {},
            }
        },
    }
}

/// Conclude that an object validates against an object schema node when
/// both were built from the same fields: every schema key is honored and no
/// stray entry exists. `tag_name` carries the injected tag entry of a tagged
/// variant, if one is present and not overridden by a field.
proof fn lemma_object_keys_fit(
    fields: Seq<NamedField>,
    vs: Seq<ApiValue>,
    entries: Seq<(String, JsonValue)>,
    keys: Seq<(String, ApiBodyInfo)>,
    sh: Set<Seq<char>>,
    variant_name: Seq<char>,
)
    requires
        forall|i: int| 0 <= i < fields.len() ==> named_field_ok(#[trigger] fields[i]),
        forall|i: int| 0 <= i < fields.len() ==> well_typed((#[trigger] fields[i]).ty, vs[i]),
        vs.len() == fields.len(),
        values_entries_ok(fields, vs, entries, sh),
        fields_entries_ok(fields, keys, sh),
        jnames_of(entries) == names_of(keys),
        no_dup_names(names_of(keys)),
        forall|k: Seq<char>|
            #![trigger names_of(keys).contains(k)]
            names_of(keys).contains(k) ==> (record_key_names(fields).contains(k) && !sh.contains(
                k,
            )) || ((jlookup(entries, k) matches Some(jv) && jv matches JsonValue::String(s2)
                && s2@ == variant_name) && (lookup_node(keys, k) matches Some(node) && is_tag_node(
                node,
                variant_name,
            ))),
    ensures
        forall|i: int|
            0 <= i < keys.len() ==> #[trigger] entry_fits(entries, keys[i].0@, keys[i].1),
        forall|i: int|
            0 <= i < entries.len() ==> names_of(keys).contains(#[trigger] entries[i].0@),
    decreases fields, 4int,
{
    lemma_entries_fit(fields, vs, entries, keys, sh);
    assert forall|i: int| 0 <= i < keys.len() implies #[trigger] entry_fits(
        entries,
        keys[i].0@,
        keys[i].1,
    ) by {
        let k = keys[i].0@;
        assert(names_of(keys)[i] == k);
        assert(names_of(keys).contains(k));
        crate::derive::lemma_lookup_by_index(keys, i);
        assert(lookup_node(keys, k) == Some(keys[i].1));
        if record_key_names(fields).contains(k) && !sh.contains(k) {
            assert(jlookup(entries, k) matches Some(jv) && lookup_node(keys, k) matches Some(
                node,
            ) && spec_validate(jv, node));
        } else {
            assert((jlookup(entries, k) matches Some(jv) && jv matches JsonValue::String(s2)
                && s2@ == variant_name) && (lookup_node(keys, k) matches Some(node) && is_tag_node(
                node,
                variant_name,
            )));
            assert(is_tag_node(keys[i].1, variant_name));
            let jv = jlookup(entries, k)->Some_0;
            assert(jv matches JsonValue::String(s2) && s2@ == variant_name);
            assert(spec_validate(jv, keys[i].1));
        }
    }
    assert forall|i: int| 0 <= i < entries.len() implies names_of(keys).contains(
        #[trigger] entries[i].0@,
    ) by {
        assert(jnames_of(entries)[i] == entries[i].0@);
        assert(names_of(keys)[i] == entries[i].0@);
    }
}

/// Schema and wire agree: a value of an accepted declaration serializes to
/// JSON that validates against the schema the declaration derives.
pub proof fn lemma_schema_wire_isomorphism(t: ApiType, v: ApiValue, j: JsonValue, s: ApiBodyInfo)
    requires
        decl_ok(t),
        well_typed(t, v),
        serializes_to(t, v, j),
        derives_to(t, s),
    ensures
        spec_validate(j, s),
{
    lemma_serialized_fits_schema(t, v, j, s);
}

/// A union that mixes variants with and without fields is rejected at
/// registration: its wire encoding would be ambiguous.
pub proof fn lemma_mixed_union_rejected(t: ApiType)
    requires
        match t {
            ApiType::Union(e) => has_unit_variant(e.variants@) && has_nonunit_variant(e.variants@),
            _ => false,
        },
    ensures
        !decl_ok(t),
{
}

// ---------------------------------------------------------------------------
// Derivation is deterministic: deriving a declaration twice yields the same
// schema node, up to deep structural equality.
// ---------------------------------------------------------------------------
/// For every merged key that no later field overwrites, two derived objects
/// hold deep-equal nodes.
proof fn lemma_entries_det(
    fields: Seq<NamedField>,
    keys1: Seq<(String, ApiBodyInfo)>,
    keys2: Seq<(String, ApiBodyInfo)>,
    sh: Set<Seq<char>>,
)
    requires
        forall|i: int| 0 <= i < fields.len() ==> named_field_ok(#[trigger] fields[i]),
        fields_entries_ok(fields, keys1, sh),
        fields_entries_ok(fields, keys2, sh),
    ensures
        forall|k: Seq<char>|
            record_key_names(fields).contains(k) && !sh.contains(k) ==> ((#[trigger] lookup_node(
                keys1,
                k,
            )) matches Some(n1) && lookup_node(keys2, k) matches Some(n2) && info_eq(n1, n2)),
    decreases fields, 0int,
{
    if fields.len() == 0 {
        assert(record_key_names(fields) =~= Seq::<Seq<char>>::empty());
    } else {
        let f = fields.last();
        let prefix = fields.drop_last();
        let fk = field_key_names(f);
        assert(record_key_names(fields) == crate::derive::names_insert_all(
            record_key_names(prefix),
            fk,
        ));
        lemma_entries_det(prefix, keys1, keys2, sh.union(fk.to_set()));
        assert forall|k: Seq<char>|
            record_key_names(fields).contains(k) && !sh.contains(k) implies ((
        #[trigger] lookup_node(keys1, k)) matches Some(n1) && lookup_node(keys2, k) matches Some(
            n2,
        ) && info_eq(n1, n2)) by {
            lemma_nia_contains(record_key_names(prefix), fk, k);
            if fk.contains(k) {
                lemma_field_entry_det(f, keys1, keys2, sh, k);
            } else {
                assert(record_key_names(prefix).contains(k));
                assert(!sh.union(fk.to_set()).contains(k));
            }
        }
    }
}

/// One field's own keys carry deep-equal nodes in both derived objects.
proof fn lemma_field_entry_det(
    f: NamedField,
    keys1: Seq<(String, ApiBodyInfo)>,
    keys2: Seq<(String, ApiBodyInfo)>,
    sh: Set<Seq<char>>,
    k: Seq<char>,
)
    requires
        named_field_ok(f),
        field_entry_ok(f, keys1, sh),
        field_entry_ok(f, keys2, sh),
        field_key_names(f).contains(k),
        !sh.contains(k),
    ensures
        lookup_node(keys1, k) matches Some(n1) && lookup_node(keys2, k) matches Some(n2)
            && info_eq(n1, n2),
    decreases f, 1int,
{
    if !spec_flatten(f.attrs@) {
        assert(field_key_names(f) == seq![f.name@]);
        assert(k == f.name@) by {
            let i = choose|i: int| 0 <= i < field_key_names(f).len() && field_key_names(f)[i] == k;
            assert(field_key_names(f)[0] == f.name@);
        }
        let n1 = lookup_node(keys1, k)->Some_0;
        let n2 = lookup_node(keys2, k)->Some_0;
        lemma_named_field_det(f, n1, n2);
    } else {
        match f.ty {
            ApiType::Record(d) => match d.fields {
                Fields::Named(fs) => {
                    assert(decl_ok(f.ty));
                    assert(forall|i: int|
                        0 <= i < fs@.len() ==> named_field_ok(#[trigger] fs@[i]));
                    lemma_entries_det(fs@, keys1, keys2, sh);
                },
                _ => {},
            },
            _ => {},
        }
    }
}

/// A named field derives deep-equal nodes: its documentation override is a
/// function of the declaration, and so is the derived shape.
proof fn lemma_named_field_det(f: NamedField, n1: ApiBodyInfo, n2: ApiBodyInfo)
    requires
        named_field_ok(f),
        named_field_derives_to(f, n1),
        named_field_derives_to(f, n2),
    ensures
        info_eq(n1, n2),
    decreases f, 0int,
{
    lemma_shape_det(f.ty, n1.ty, n2.ty);
}

/// The tag entries of two derivations of one variant are deep equal.
proof fn lemma_tag_nodes_eq(n1: ApiBodyInfo, n2: ApiBodyInfo, name: Seq<char>)
    requires
        is_tag_node(n1, name),
        is_tag_node(n2, name),
    ensures
        info_eq(n1, n2),
{
}

/// Two derivations of one variant are deep equal.
proof fn lemma_variant_det(
    tag: Seq<char>,
    vd: crate::decl::VariantDecl,
    s1: ApiBodyInfo,
    s2: ApiBodyInfo,
)
    requires
        variant_ok(vd),
        variant_derives_to(tag, vd, s1),
        variant_derives_to(tag, vd, s2),
    ensures
        info_eq(s1, s2),
    decreases vd, 3int,
{
    match vd.fields {
        Fields::Unit => {},
        Fields::Single(f) => {
            match f.ty {
                ApiType::Record(d) => match d.fields {
                    Fields::Named(fs) => {
                        assert(decl_ok(f.ty));
                        assert(forall|i: int|
                            0 <= i < fs@.len() ==> named_field_ok(#[trigger] fs@[i]));
                        match (s1.ty, s2.ty) {
                            (ApiBodyType::Object { keys: k1 }, ApiBodyType::Object {
                                keys: k2,
                            }) => {
                                lemma_rkn_no_dup(Seq::empty(), fs@);
                                crate::derive::lemma_names_insert_no_dup(
                                    record_key_names(fs@),
                                    tag,
                                );
                                lemma_entries_det(
                                    fs@,
                                    k1@,
                                    k2@,
                                    Set::empty().insert(tag),
                                );
                                assert forall|k: Seq<char>|
                                    #![trigger names_of(k1@).contains(k)]
                                    names_of(k1@).contains(k) implies ((record_key_names(
                                    fs@,
                                ).contains(k) && !Set::empty().insert(tag).contains(k)) || ((
                                lookup_node(k1@, k) matches Some(n1) && is_tag_node(n1, vd.name@))
                                    && (lookup_node(k2@, k) matches Some(n2) && is_tag_node(
                                    n2,
                                    vd.name@,
                                )))) by {
                                    crate::derive::lemma_names_insert_contains(
                                        record_key_names(fs@),
                                        tag,
                                        k,
                                    );
                                    if k == tag {
                                    } else {
                                        assert(record_key_names(fs@).contains(k));
                                    }
                                }
                                lemma_object_nodes_eq(
                                    fs@,
                                    k1@,
                                    k2@,
                                    Set::empty().insert(tag),
                                    tag,
                                    vd.name@,
                                );
                                assert(crate::schema::keys_eq(k1@, k2@));
                            },
                            _ => {},
                        }
                    },
                    _ => {},
                },
                _ => {},
            }
        },
        Fields::Unnamed(_) => {},
        Fields::Named(fs) => {
            match (s1.ty, s2.ty) {
                (ApiBodyType::Object { keys: k1 }, ApiBodyType::Object { keys: k2 }) => {
                    assert(forall|i: int|
                        0 <= i < fs@.len() ==> named_field_ok(#[trigger] fs@[i]));
                    assert(no_dup_names(seq![tag])) by {
                        assert(seq![tag].len() == 1);
                    }
                    lemma_rkn_no_dup(seq![tag], fs@);
                    lemma_entries_det(fs@, k1@, k2@, Set::empty());
                    assert forall|k: Seq<char>|
                        #![trigger names_of(k1@).contains(k)]
                        names_of(k1@).contains(k) implies ((record_key_names(fs@).contains(k)
                        && !Set::<Seq<char>>::empty().contains(k)) || ((lookup_node(k1@, k)
                        matches Some(n1) && is_tag_node(n1, vd.name@)) && (lookup_node(k2@, k)
                        matches Some(n2) && is_tag_node(n2, vd.name@)))) by {
                        crate::derive::lemma_rkn_covered(seq![tag], fs@, k);
                        if record_key_names(fs@).contains(k) {
                        } else {
                            assert(seq![tag].contains(k));
                            assert(k == tag) by {
                                let i = choose|i: int|
                                    0 <= i < seq![tag].len() && seq![tag][i] == k;
                                assert(seq![tag][0] == tag);
                            }
                        }
                    }
                    lemma_object_nodes_eq(fs@, k1@, k2@, Set::empty(), tag, vd.name@);
                    assert(crate::schema::keys_eq(k1@, k2@));
                },
                _ => {},
            }
        },
    }
}

/// Two derived objects with the same names, pinned field entries and tag
/// entry are deep equal, position by position.
proof fn lemma_object_nodes_eq(
    fields: Seq<NamedField>,
    keys1: Seq<(String, ApiBodyInfo)>,
    keys2: Seq<(String, ApiBodyInfo)>,
    sh: Set<Seq<char>>,
    tag: Seq<char>,
    variant_name: Seq<char>,
)
    requires
        names_of(keys1) == names_of(keys2),
        no_dup_names(names_of(keys1)),
        forall|k: Seq<char>|
            record_key_names(fields).contains(k) && !sh.contains(k) ==> ((#[trigger] lookup_node(
                keys1,
                k,
            )) matches Some(n1) && lookup_node(keys2, k) matches Some(n2) && info_eq(n1, n2)),
        forall|k: Seq<char>|
            #![trigger names_of(keys1).contains(k)]
            names_of(keys1).contains(k) ==> (record_key_names(fields).contains(k) && !sh.contains(
                k,
            )) || ((lookup_node(keys1, k) matches Some(n1) && is_tag_node(n1, variant_name)) && (
            lookup_node(keys2, k) matches Some(n2) && is_tag_node(n2, variant_name))),
    ensures
        crate::schema::keys_eq(keys1, keys2),
{
    assert(keys1.len() == keys2.len()) by {
        assert(names_of(keys1).len() == keys1.len());
        assert(names_of(keys2).len() == keys2.len());
    }
    assert forall|i: int| 0 <= i < keys1.len() implies (#[trigger] keys1[i]).0@ == keys2[i].0@ by {
        assert(names_of(keys1)[i] == keys1[i].0@);
        assert(names_of(keys2)[i] == keys2[i].0@);
    }
    assert forall|i: int| 0 <= i < keys1.len() implies info_eq(
        (#[trigger] keys1[i]).1,
        keys2[i].1,
    ) by {
        let k = keys1[i].0@;
        assert(names_of(keys1)[i] == k);
        assert(names_of(keys1).contains(k));
        crate::derive::lemma_lookup_by_index(keys1, i);
        assert(names_of(keys2)[i] == k);
        crate::derive::lemma_lookup_by_index(keys2, i);
        if record_key_names(fields).contains(k) && !sh.contains(k) {
            assert(lookup_node(keys1, k) matches Some(n1) && lookup_node(keys2, k) matches Some(
                n2,
            ) && info_eq(n1, n2));
        } else {
            assert((lookup_node(keys1, k) matches Some(n1) && is_tag_node(n1, variant_name)) && (
            lookup_node(keys2, k) matches Some(n2) && is_tag_node(n2, variant_name)));
            lemma_tag_nodes_eq(keys1[i].1, keys2[i].1, variant_name);
        }
    }
    lemma_keys_eq_intro(keys1, keys2);
}

/// Two derived shapes of one accepted declaration are deep equal.
proof fn lemma_shape_det(t: ApiType, ty1: ApiBodyType, ty2: ApiBodyType)
    requires
        decl_ok(t),
        shape_derives(t, ty1),
        shape_derives(t, ty2),
    ensures
        shape_eq(ty1, ty2),
    decreases t, 3int,
{
    match t {
        ApiType::Number => {},
        ApiType::Boolean => {},
        ApiType::Text => {},
        ApiType::Unit => {},
        ApiType::AnyJson => {},
        ApiType::Uuid => {},
        ApiType::DateTime => {},
        ApiType::ArrayOf(inner) => {
            match (ty1, ty2) {
                (ApiBodyType::ArrayOf { value: v1 }, ApiBodyType::ArrayOf { value: v2 }) => {
                    lemma_node_det(*inner, *v1, *v2);
                },
                _ => {},
            }
        },
        ApiType::Tuple(ts) => {
            match (ty1, ty2) {
                (ApiBodyType::TupleOf { values: v1 }, ApiBodyType::TupleOf { values: v2 }) => {
                    assert forall|i: int| 0 <= i < v1@.len() implies info_eq(
                        #[trigger] v1@[i],
                        v2@[i],
                    ) by {
                        lemma_node_det(ts@[i], v1@[i], v2@[i]);
                    }
                    lemma_infos_eq_intro(v1@, v2@);
                },
                _ => {},
            }
        },
        ApiType::MapOf(inner) => {
            match (ty1, ty2) {
                (ApiBodyType::ObjectOf { value: v1 }, ApiBodyType::ObjectOf { value: v2 }) => {
                    lemma_node_det(*inner, *v1, *v2);
                },
                _ => {},
            }
        },
        ApiType::Optional(inner) => {
            match (ty1, ty2) {
                (ApiBodyType::Optional { value: v1 }, ApiBodyType::Optional { value: v2 }) => {
                    lemma_node_det(*inner, *v1, *v2);
                },
                _ => {},
            }
        },
        ApiType::Record(d) => {
            match d.fields {
                Fields::Unit => {},
                Fields::Single(f) => {
                    assert(field_ok(f));
                    lemma_shape_det(f.ty, ty1, ty2);
                },
                Fields::Unnamed(fs) => {
                    match (ty1, ty2) {
                        (ApiBodyType::TupleOf { values: v1 }, ApiBodyType::TupleOf {
                            values: v2,
                        }) => {
                            assert forall|i: int| 0 <= i < v1@.len() implies info_eq(
                                #[trigger] v1@[i],
                                v2@[i],
                            ) by {
                                assert(field_ok(fs@[i]));
                                assert(field_derives_to(fs@[i], v1@[i]));
                                assert(field_derives_to(fs@[i], v2@[i]));
                                lemma_field_det(fs@[i], v1@[i], v2@[i]);
                            }
                            lemma_infos_eq_intro(v1@, v2@);
                        },
                        _ => {},
                    }
                },
                Fields::Named(fs) => {
                    match (ty1, ty2) {
                        (ApiBodyType::Object { keys: k1 }, ApiBodyType::Object { keys: k2 }) => {
                            lemma_rkn_no_dup(Seq::empty(), fs@);
                            lemma_entries_det(fs@, k1@, k2@, Set::empty());
                            assert forall|k: Seq<char>|
                                #![trigger names_of(k1@).contains(k)]
                                names_of(k1@).contains(k) implies ((record_key_names(
                                fs@,
                            ).contains(k) && !Set::<Seq<char>>::empty().contains(k)) || ((
                            lookup_node(k1@, k) matches Some(n1) && is_tag_node(
                                n1,
                                Seq::empty(),
                            )) && (lookup_node(k2@, k) matches Some(n2) && is_tag_node(
                                n2,
                                Seq::empty(),
                            )))) by {}
                            lemma_object_nodes_eq(
                                fs@,
                                k1@,
                                k2@,
                                Set::empty(),
                                Seq::empty(),
                                Seq::empty(),
                            );
                            assert(crate::schema::keys_eq(k1@, k2@));
                        },
                        _ => {},
                    }
                },
            }
        },
        ApiType::Union(e) => {
            match (ty1, ty2) {
                (ApiBodyType::OneOf { values: v1 }, ApiBodyType::OneOf { values: v2 }) => {
                    let tag = spec_enum_tag(*e);
                    assert forall|i: int| 0 <= i < v1@.len() implies info_eq(
                        #[trigger] v1@[i],
                        v2@[i],
                    ) by {
                        assert(variant_ok(e.variants@[i]));
                        assert(variant_derives_to(tag, e.variants@[i], v1@[i]));
                        assert(variant_derives_to(tag, e.variants@[i], v2@[i]));
                        lemma_variant_det(tag, e.variants@[i], v1@[i], v2@[i]);
                    }
                    lemma_infos_eq_intro(v1@, v2@);
                },
                _ => {},
            }
        },
    }
}

/// An unnamed field derives deep-equal nodes.
proof fn lemma_field_det(f: crate::decl::Field, n1: ApiBodyInfo, n2: ApiBodyInfo)
    requires
        field_ok(f),
        field_derives_to(f, n1),
        field_derives_to(f, n2),
    ensures
        info_eq(n1, n2),
    decreases f, 4int,
{
    lemma_shape_det(f.ty, n1.ty, n2.ty);
}

/// Derivation is idempotent: deriving a declaration twice yields the same
/// schema node, compared as deep structural equality.
pub proof fn lemma_derivation_deterministic(t: ApiType, s1: ApiBodyInfo, s2: ApiBodyInfo)
    requires
        decl_ok(t),
        derives_to(t, s1),
        derives_to(t, s2),
    ensures
        info_eq(s1, s2),
{
    lemma_node_det(t, s1, s2);
}

proof fn lemma_node_det(t: ApiType, s1: ApiBodyInfo, s2: ApiBodyInfo)
    requires
        decl_ok(t),
        derives_to(t, s1),
        derives_to(t, s2),
    ensures
        info_eq(s1, s2),
    decreases t, 4int,
{
    lemma_shape_det(t, s1.ty, s2.ty);
}

} // verus!
