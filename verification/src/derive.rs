//! The schema derivation engine: turns record and union declarations into
//! schema nodes, enforcing the tagging and flatten rules.
//!
//! The specification is a family of relations. `decl_ok` says which
//! declarations are accepted; `derives_to` says which schema node a
//! declaration derives to. Objects are described by their merged key-name
//! sequence (`record_key_names`, last write wins on a collision) and by a
//! fold that pins the node of every entry whose key is not written again by
//! a later field (`fields_entries_ok`).

use vstd::prelude::*;
use crate::decl::{
    ApiType, DeriveError, EnumDecl, Field, Fields, NamedField, VariantDecl, has_serde, spec_docs,
    spec_flatten, spec_tag,
};
use crate::schema::{ApiBodyInfo, ApiBodyStructInfo, ApiBodyType};

verus! {

// ---------------------------------------------------------------------------
// Key names of a record: the object keys it derives to, in order, merged.
// ---------------------------------------------------------------------------
/// The names of an entry list, in order.
pub open spec fn names_of(keys: Seq<(String, ApiBodyInfo)>) -> Seq<Seq<char>> {
    keys.map_values(|p: (String, ApiBodyInfo)| p.0@)
}

/// The node stored under `k`, if any (names are kept unique).
pub open spec fn lookup_node(keys: Seq<(String, ApiBodyInfo)>, k: Seq<char>) -> Option<ApiBodyInfo>
    decreases keys.len(),
{
    if keys.len() == 0 {
        None
    } else if keys[0].0@ == k {
        Some(keys[0].1)
    } else {
        lookup_node(keys.drop_first(), k)
    }
}

/// Insert a name with map semantics: a present name keeps its position, an
/// absent one is appended.
pub open spec fn names_insert(ns: Seq<Seq<char>>, n: Seq<char>) -> Seq<Seq<char>> {
    if ns.contains(n) {
        ns
    } else {
        ns.push(n)
    }
}

/// Insert every name of `more`, in order.
pub open spec fn names_insert_all(acc: Seq<Seq<char>>, more: Seq<Seq<char>>) -> Seq<Seq<char>>
    decreases more.len(),
{
    if more.len() == 0 {
        acc
    } else {
        names_insert(names_insert_all(acc, more.drop_last()), more.last())
    }
}

/// The object keys a single named field contributes: its own name, or, when
/// it is flattened, the merged keys of the record it holds.
pub open spec fn field_key_names(f: NamedField) -> Seq<Seq<char>>
    decreases f, 0int,
{
    if !spec_flatten(f.attrs@) {
        seq![f.name@]
    } else {
        match f.ty {
            ApiType::Record(d) => match d.fields {
                Fields::Named(fs) => record_key_names(fs@),
                _ => Seq::empty(),
            },
            _ => Seq::empty(),
        }
    }
}

/// The merged object keys of a field list, starting from `start`.
pub open spec fn rkn_from(start: Seq<Seq<char>>, fields: Seq<NamedField>) -> Seq<Seq<char>>
    decreases fields, 1int,
{
    if fields.len() == 0 {
        start
    } else {
        names_insert_all(rkn_from(start, fields.drop_last()), field_key_names(fields.last()))
    }
}

/// The merged object keys of a field list.
pub open spec fn record_key_names(fields: Seq<NamedField>) -> Seq<Seq<char>>
    decreases fields, 2int,
{
    rkn_from(Seq::empty(), fields)
}

// ---------------------------------------------------------------------------
// Validity: which declarations are accepted at registration time.
// ---------------------------------------------------------------------------
/// Is the type a record with named fields? Only such a type can be flattened
/// into a parent object or wrapped by a union variant.
pub open spec fn is_named_record(t: ApiType) -> bool {
    match t {
        ApiType::Record(d) => d.fields is Named,
        _ => false,
    }
}

/// An unnamed field is well formed: no serde attribute, type accepted.
pub open spec fn field_ok(f: Field) -> bool
    decreases f, 1int,
{
    !has_serde(f.attrs@) && decl_ok(f.ty)
}

/// A named field is well formed; a flattened field must hold a record with
/// named fields.
pub open spec fn named_field_ok(f: NamedField) -> bool
    decreases f, 1int,
{
    &&& !has_serde(f.attrs@)
    &&& decl_ok(f.ty)
    &&& (spec_flatten(f.attrs@) ==> is_named_record(f.ty))
}

/// A union variant is well formed: unit, or named fields, or a single value
/// that wraps a record with named fields. Multiple unnamed fields leave no
/// place for a tag.
pub open spec fn variant_ok(v: VariantDecl) -> bool
    decreases v, 2int,
{
    &&& !has_serde(v.attrs@)
    &&& match v.fields {
        Fields::Unit => true,
        Fields::Single(f) => !has_serde(f.attrs@) && is_named_record(f.ty) && decl_ok(f.ty),
        Fields::Unnamed(_) => false,
        Fields::Named(fs) => forall|i: int| 0 <= i < fs@.len() ==> named_field_ok(#[trigger] fs@[i]),
    }
}

/// Does the union have a variant without fields?
pub open spec fn has_unit_variant(vs: Seq<VariantDecl>) -> bool {
    exists|i: int| 0 <= i < vs.len() && (#[trigger] vs[i].fields) is Unit
}

/// Does the union have a variant with fields?
pub open spec fn has_nonunit_variant(vs: Seq<VariantDecl>) -> bool {
    exists|i: int| 0 <= i < vs.len() && !((#[trigger] vs[i].fields) is Unit)
}

/// Which declarations the registration accepts. Everything else is a hard
/// error at registration time, never a runtime condition.
pub open spec fn decl_ok(t: ApiType) -> bool
    decreases t, 3int,
{
    match t {
        ApiType::Number => true,
        ApiType::Boolean => true,
        ApiType::Text => true,
        ApiType::Unit => true,
        ApiType::AnyJson => true,
        ApiType::Uuid => true,
        ApiType::DateTime => true,
        ApiType::ArrayOf(inner) => decl_ok(*inner),
        ApiType::Tuple(ts) => ts@.len() >= 1 && (forall|i: int|
            0 <= i < ts@.len() ==> decl_ok(#[trigger] ts@[i])),
        ApiType::MapOf(inner) => decl_ok(*inner),
        ApiType::Optional(inner) => decl_ok(*inner),
        ApiType::Record(d) => !has_serde(d.attrs@) && match d.fields {
            Fields::Unit => false,
            Fields::Single(f) => field_ok(f),
            Fields::Unnamed(fs) => fs@.len() >= 2 && (forall|i: int|
                0 <= i < fs@.len() ==> field_ok(#[trigger] fs@[i])),
            Fields::Named(fs) => forall|i: int|
                0 <= i < fs@.len() ==> named_field_ok(#[trigger] fs@[i]),
        },
        ApiType::Union(e) => {
            &&& !has_serde(e.attrs@)
            &&& !(has_unit_variant(e.variants@) && has_nonunit_variant(e.variants@))
            &&& forall|i: int| 0 <= i < e.variants@.len() ==> variant_ok(#[trigger] e.variants@[i])
        },
    }
}

// ---------------------------------------------------------------------------
// The derived description of a type.
// ---------------------------------------------------------------------------
/// The description a declaration derives: its own documentation; a record
/// around a single unnamed field is transparent and falls back to the field's
/// documentation, then to the inner type's.
pub open spec fn spec_desc(t: ApiType) -> Seq<char>
    decreases t,
{
    match t {
        ApiType::Uuid => "A UUID"@,
        ApiType::DateTime => "A Datetime"@,
        ApiType::Record(d) => match d.fields {
            Fields::Single(f) => if spec_docs(d.attrs@).len() > 0 {
                spec_docs(d.attrs@)
            } else if spec_docs(f.attrs@).len() > 0 {
                spec_docs(f.attrs@)
            } else {
                spec_desc(f.ty)
            },
            _ => spec_docs(d.attrs@),
        },
        ApiType::Union(e) => spec_docs(e.attrs@),
        _ => Seq::empty(),
    }
}

/// The discriminant key of a union: as declared, or "kind" by default.
pub open spec fn spec_enum_tag(e: EnumDecl) -> Seq<char> {
    match spec_tag(e.attrs@) {
        Some(t) => t,
        None => "kind"@,
    }
}

// ---------------------------------------------------------------------------
// The derivation relation: which schema node a declaration derives to.
// ---------------------------------------------------------------------------
/// The injected tag entry of a tagged variant object: the fixed description
/// and the variant's name as a string literal.
pub open spec fn is_tag_node(s: ApiBodyInfo, variant_name: Seq<char>) -> bool {
    &&& s.description@ == "Variant tag"@
    &&& s.ty matches ApiBodyType::StringLiteral { literal } && literal@ == variant_name
}

/// A declaration derives to a schema node: the derived description and the
/// derived shape.
pub open spec fn derives_to(t: ApiType, s: ApiBodyInfo) -> bool
    decreases t, 4int,
{
    s.description@ == spec_desc(t) && shape_derives(t, s.ty)
}

/// An unnamed field derives to a node: the field's own documentation, when
/// present, overrides the description its type derives.
pub open spec fn field_derives_to(f: Field, s: ApiBodyInfo) -> bool
    decreases f, 5int,
{
    if spec_docs(f.attrs@).len() > 0 {
        s.description@ == spec_docs(f.attrs@) && shape_derives(f.ty, s.ty)
    } else {
        derives_to(f.ty, s)
    }
}

/// A named field derives to a node, its documentation overriding as above.
pub open spec fn named_field_derives_to(f: NamedField, s: ApiBodyInfo) -> bool
    decreases f, 0int,
{
    if spec_docs(f.attrs@).len() > 0 {
        s.description@ == spec_docs(f.attrs@) && shape_derives(f.ty, s.ty)
    } else {
        derives_to(f.ty, s)
    }
}

/// Every field of the list finds its entry in `keys`: a field whose keys are
/// all written again later contributes nothing; any other non-flattened field
/// must find its derived node under its name, and a flattened field defers to
/// the fields of the record it holds. `shadowed` carries the keys written by
/// later fields (which win).
pub open spec fn fields_entries_ok(
    fields: Seq<NamedField>,
    keys: Seq<(String, ApiBodyInfo)>,
    shadowed: Set<Seq<char>>,
) -> bool
    decreases fields, 2int,
{
    if fields.len() == 0 {
        true
    } else {
        let f = fields.last();
        &&& fields_entries_ok(
            fields.drop_last(),
            keys,
            shadowed.union(field_key_names(f).to_set()),
        )
        &&& field_entry_ok(f, keys, shadowed)
    }
}

/// One named field finds its entries in `keys`, unless shadowed.
pub open spec fn field_entry_ok(
    f: NamedField,
    keys: Seq<(String, ApiBodyInfo)>,
    shadowed: Set<Seq<char>>,
) -> bool
    decreases f, 1int,
{
    if !spec_flatten(f.attrs@) {
        shadowed.contains(f.name@) || (lookup_node(keys, f.name@) matches Some(node)
            && named_field_derives_to(f, node))
    } else {
        match f.ty {
            ApiType::Record(d) => match d.fields {
                Fields::Named(fs) => fields_entries_ok(fs@, keys, shadowed),
                _ => false,
            },
            _ => false,
        }
    }
}

/// A union variant derives to one alternative of the union's schema.
pub open spec fn variant_derives_to(tag: Seq<char>, v: VariantDecl, s: ApiBodyInfo) -> bool
    decreases v, 3int,
{
    match v.fields {
        Fields::Unit => {
            &&& s.description@ == spec_docs(v.attrs@)
            &&& s.ty matches ApiBodyType::StringLiteral { literal } && literal@ == v.name@
        },
        Fields::Single(f) => {
            &&& s.description@ == (if spec_docs(v.attrs@).len() > 0 {
                spec_docs(v.attrs@)
            } else {
                spec_desc(f.ty)
            })
            &&& match f.ty {
                ApiType::Record(d) => match d.fields {
                    Fields::Named(fs) => {
                        &&& s.ty matches ApiBodyType::Object { keys }
                        &&& names_of(keys@) == names_insert(record_key_names(fs@), tag)
                        &&& (lookup_node(keys@, tag) matches Some(n) && is_tag_node(n, v.name@))
                        &&& fields_entries_ok(fs@, keys@, Set::empty().insert(tag))
                    },
                    _ => false,
                },
                _ => false,
            }
        },
        Fields::Unnamed(_) => false,
        Fields::Named(fs) => {
            &&& s.description@ == spec_docs(v.attrs@)
            &&& s.ty matches ApiBodyType::Object { keys }
            &&& names_of(keys@) == rkn_from(seq![tag], fs@)
            &&& (!record_key_names(fs@).contains(tag) ==> (lookup_node(keys@, tag) matches Some(n)
                && is_tag_node(n, v.name@)))
            &&& fields_entries_ok(fs@, keys@, Set::empty())
        },
    }
}

/// The derived shape of a declaration.
pub open spec fn shape_derives(t: ApiType, ty: ApiBodyType) -> bool
    decreases t, 3int,
{
    match t {
        ApiType::Number => ty is Number,
        ApiType::Boolean => ty is Boolean,
        ApiType::Text => ty is String,
        ApiType::Unit => ty is Null,
        ApiType::AnyJson => ty is Any,
        ApiType::Uuid => ty is String,
        ApiType::DateTime => ty is String,
        ApiType::ArrayOf(inner) => ty matches ApiBodyType::ArrayOf { value } && derives_to(
            *inner,
            *value,
        ),
        ApiType::Tuple(ts) => {
            &&& ty matches ApiBodyType::TupleOf { values }
            &&& values@.len() == ts@.len()
            &&& forall|i: int|
                0 <= i < ts@.len() ==> derives_to(#[trigger] ts@[i], values@[i])
        },
        ApiType::MapOf(inner) => ty matches ApiBodyType::ObjectOf { value } && derives_to(
            *inner,
            *value,
        ),
        ApiType::Optional(inner) => ty matches ApiBodyType::Optional { value } && derives_to(
            *inner,
            *value,
        ),
        ApiType::Record(d) => match d.fields {
            Fields::Unit => false,
            Fields::Single(f) => shape_derives(f.ty, ty),
            Fields::Unnamed(fs) => {
                &&& ty matches ApiBodyType::TupleOf { values }
                &&& values@.len() == fs@.len()
                &&& forall|i: int|
                    0 <= i < fs@.len() ==> field_derives_to(#[trigger] fs@[i], values@[i])
            },
            Fields::Named(fs) => {
                &&& ty matches ApiBodyType::Object { keys }
                &&& names_of(keys@) == record_key_names(fs@)
                &&& fields_entries_ok(fs@, keys@, Set::empty())
            },
        },
        ApiType::Union(e) => {
            &&& ty matches ApiBodyType::OneOf { values }
            &&& values@.len() == e.variants@.len()
            &&& forall|i: int|
                0 <= i < e.variants@.len() ==> variant_derives_to(
                    spec_enum_tag(*e),
                    #[trigger] e.variants@[i],
                    values@[i],
                )
        },
    }
}

// ---------------------------------------------------------------------------
// Facts about lookups, merged names and the entry relation.
// ---------------------------------------------------------------------------
/// No name occurs twice.
pub open spec fn no_dup_names(ns: Seq<Seq<char>>) -> bool {
    forall|i: int, j: int| 0 <= i < j < ns.len() ==> ns[i] != ns[j]
}

pub proof fn lemma_push_contains(ns: Seq<Seq<char>>, x: Seq<char>, y: Seq<char>)
    ensures
        ns.push(x).contains(y) <==> (ns.contains(y) || x == y),
{
    if ns.contains(y) {
        let i = choose|i: int| 0 <= i < ns.len() && ns[i] == y;
        assert(ns.push(x)[i] == y);
    }
    if x == y {
        assert(ns.push(x)[ns.len() as int] == y);
    }
    if ns.push(x).contains(y) {
        let i = choose|i: int| 0 <= i < ns.push(x).len() && ns.push(x)[i] == y;
        if i < ns.len() {
            assert(ns[i] == y);
        }
    }
}

pub proof fn lemma_names_insert_contains(ns: Seq<Seq<char>>, n: Seq<char>, y: Seq<char>)
    ensures
        names_insert(ns, n).contains(y) <==> (ns.contains(y) || n == y),
{
    if ns.contains(n) {
        if n == y {
        }
    } else {
        lemma_push_contains(ns, n, y);
    }
}

pub proof fn lemma_nia_contains(acc: Seq<Seq<char>>, more: Seq<Seq<char>>, y: Seq<char>)
    ensures
        names_insert_all(acc, more).contains(y) <==> (acc.contains(y) || more.contains(y)),
    decreases more.len(),
{
    if more.len() == 0 {
        assert(!more.contains(y));
    } else {
        lemma_nia_contains(acc, more.drop_last(), y);
        lemma_names_insert_contains(names_insert_all(acc, more.drop_last()), more.last(), y);
        assert(more.contains(y) <==> (more.drop_last().contains(y) || more.last() == y)) by {
            if more.drop_last().contains(y) {
                let i = choose|i: int| 0 <= i < more.drop_last().len() && more.drop_last()[i] == y;
                assert(more[i] == y);
            }
            if more.contains(y) {
                let i = choose|i: int| 0 <= i < more.len() && more[i] == y;
                if i < more.len() - 1 {
                    assert(more.drop_last()[i] == y);
                }
            }
        }
    }
}

/// Whether `k` is among the merged keys of a field list, related to the fold.
pub proof fn lemma_rkn_covered(start: Seq<Seq<char>>, fields: Seq<NamedField>, k: Seq<char>)
    ensures
        rkn_from(start, fields).contains(k) <==> (start.contains(k) || record_key_names(
            fields,
        ).contains(k)),
    decreases fields.len(),
{
    if fields.len() == 0 {
        assert(!Seq::<Seq<char>>::empty().contains(k));
    } else {
        let dl = fields.drop_last();
        let fk = field_key_names(fields.last());
        lemma_rkn_covered(start, dl, k);
        lemma_rkn_covered(Seq::empty(), dl, k);
        lemma_nia_contains(rkn_from(start, dl), fk, k);
        lemma_nia_contains(rkn_from(Seq::empty(), dl), fk, k);
        assert(!Seq::<Seq<char>>::empty().contains(k));
    }
}

pub proof fn lemma_names_insert_no_dup(ns: Seq<Seq<char>>, n: Seq<char>)
    requires
        no_dup_names(ns),
    ensures
        no_dup_names(names_insert(ns, n)),
{
    if !ns.contains(n) {
        let r = ns.push(n);
        assert forall|i: int, j: int| 0 <= i < j < r.len() implies r[i] != r[j] by {
            if j == ns.len() {
                assert(r[j] == n);
                assert(ns[i] == r[i]);
                assert(!ns.contains(n));
            }
        }
    }
}

proof fn lemma_nia_no_dup(acc: Seq<Seq<char>>, more: Seq<Seq<char>>)
    requires
        no_dup_names(acc),
    ensures
        no_dup_names(names_insert_all(acc, more)),
    decreases more.len(),
{
    if more.len() > 0 {
        lemma_nia_no_dup(acc, more.drop_last());
        lemma_names_insert_no_dup(names_insert_all(acc, more.drop_last()), more.last());
    }
}

/// The merged keys of a field list have no duplicates.
pub proof fn lemma_rkn_no_dup(start: Seq<Seq<char>>, fields: Seq<NamedField>)
    requires
        no_dup_names(start),
    ensures
        no_dup_names(rkn_from(start, fields)),
    decreases fields.len(),
{
    if fields.len() > 0 {
        lemma_rkn_no_dup(start, fields.drop_last());
        lemma_nia_no_dup(rkn_from(start, fields.drop_last()), field_key_names(fields.last()));
    }
}

/// With unique names, the entry at an index is what lookup finds.
pub proof fn lemma_lookup_by_index(keys: Seq<(String, ApiBodyInfo)>, j: int)
    requires
        no_dup_names(names_of(keys)),
        0 <= j < keys.len(),
    ensures
        lookup_node(keys, keys[j].0@) == Some(keys[j].1),
    decreases keys.len(),
{
    if j == 0 {
    } else {
        assert(names_of(keys)[0] != names_of(keys)[j]);
        assert(names_of(keys.drop_first()) =~= names_of(keys).drop_first());
        lemma_lookup_by_index(keys.drop_first(), j - 1);
    }
}

/// Lookup fails exactly on the names that are not there.
pub proof fn lemma_lookup_none(keys: Seq<(String, ApiBodyInfo)>, k: Seq<char>)
    ensures
        (lookup_node(keys, k) is None) <==> !names_of(keys).contains(k),
    decreases keys.len(),
{
    if keys.len() == 0 {
        assert(!names_of(keys).contains(k));
    } else {
        lemma_lookup_none(keys.drop_first(), k);
        assert(names_of(keys.drop_first()) =~= names_of(keys).drop_first());
        if keys[0].0@ == k {
            assert(names_of(keys)[0] == k);
        } else {
            assert(names_of(keys).contains(k) <==> names_of(keys).drop_first().contains(k)) by {
                if names_of(keys).contains(k) {
                    let i = choose|i: int|
                        0 <= i < names_of(keys).len() && names_of(keys)[i] == k;
                    assert(i != 0);
                    assert(names_of(keys).drop_first()[i - 1] == k);
                }
                if names_of(keys).drop_first().contains(k) {
                    let i = choose|i: int|
                        0 <= i < names_of(keys).drop_first().len() && names_of(
                            keys,
                        ).drop_first()[i] == k;
                    assert(names_of(keys)[i + 1] == k);
                }
            }
        }
    }
}

proof fn lemma_lookup_update(keys: Seq<(String, ApiBodyInfo)>, i: int, p: (String, ApiBodyInfo))
    requires
        0 <= i < keys.len(),
        keys[i].0@ == p.0@,
        forall|j: int| 0 <= j < i ==> keys[j].0@ != p.0@,
    ensures
        lookup_node(keys.update(i, p), p.0@) == Some(p.1),
        forall|k: Seq<char>|
            k != p.0@ ==> lookup_node(keys.update(i, p), k) == lookup_node(keys, k),
    decreases keys.len(),
{
    let u = keys.update(i, p);
    if i == 0 {
        assert(u[0] == p);
        assert(u.drop_first() =~= keys.drop_first());
        assert forall|k: Seq<char>| k != p.0@ implies lookup_node(u, k) == lookup_node(
            keys,
            k,
        ) by {
            assert(u[0].0@ == p.0@);
            assert(keys[0].0@ == p.0@);
        }
    } else {
        assert(u[0] == keys[0]);
        assert(u.drop_first() =~= keys.drop_first().update(i - 1, p));
        lemma_lookup_update(keys.drop_first(), i - 1, p);
        assert(keys[0].0@ != p.0@);
        assert(lookup_node(u, p.0@) == Some(p.1));
        assert forall|k: Seq<char>| k != p.0@ implies lookup_node(u, k) == lookup_node(
            keys,
            k,
        ) by {
            if keys[0].0@ == k {
            } else {
                assert(lookup_node(u, k) == lookup_node(u.drop_first(), k));
                assert(lookup_node(keys, k) == lookup_node(keys.drop_first(), k));
            }
        }
    }
}

proof fn lemma_lookup_push(keys: Seq<(String, ApiBodyInfo)>, p: (String, ApiBodyInfo), k: Seq<
    char,
>)
    ensures
        lookup_node(keys.push(p), k) == (if lookup_node(keys, k) is Some {
            lookup_node(keys, k)
        } else if p.0@ == k {
            Some(p.1)
        } else {
            None::<ApiBodyInfo>
        }),
    decreases keys.len(),
{
    let u = keys.push(p);
    if keys.len() == 0 {
        assert(u[0] == p);
        assert(u.drop_first() =~= Seq::<(String, ApiBodyInfo)>::empty());
        assert(lookup_node(keys, k) is None);
        if p.0@ != k {
            assert(lookup_node(u, k) == lookup_node(u.drop_first(), k));
            assert(lookup_node(u.drop_first(), k) is None);
        }
    } else {
        assert(u[0] == keys[0]);
        assert(u.drop_first() =~= keys.drop_first().push(p));
        lemma_lookup_push(keys.drop_first(), p, k);
        if keys[0].0@ == k {
            assert(lookup_node(u, k) == Some(keys[0].1));
            assert(lookup_node(keys, k) == Some(keys[0].1));
        } else {
            assert(lookup_node(u, k) == lookup_node(keys.drop_first().push(p), k));
            assert(lookup_node(keys, k) == lookup_node(keys.drop_first(), k));
        }
    }
}

/// The entry relation only inspects lookups of merged, unshadowed keys, and
/// a larger shadow set only weakens it.
proof fn lemma_entries_congruence(
    fields: Seq<NamedField>,
    keys_a: Seq<(String, ApiBodyInfo)>,
    keys_b: Seq<(String, ApiBodyInfo)>,
    sh_a: Set<Seq<char>>,
    sh_b: Set<Seq<char>>,
)
    requires
        fields_entries_ok(fields, keys_a, sh_a),
        sh_a.subset_of(sh_b),
        forall|k: Seq<char>|
            record_key_names(fields).contains(k) && !sh_b.contains(k) ==> lookup_node(keys_a, k)
                == lookup_node(keys_b, k),
    ensures
        fields_entries_ok(fields, keys_b, sh_b),
    decreases fields, 1int,
{
    if fields.len() > 0 {
        let f = fields.last();
        let fk = field_key_names(f).to_set();
        assert forall|k: Seq<char>|
            record_key_names(fields.drop_last()).contains(k) && !sh_b.union(fk).contains(
                k,
            ) implies lookup_node(keys_a, k) == lookup_node(keys_b, k) by {
            lemma_rkn_covered(Seq::empty(), fields, k);
            lemma_rkn_covered(Seq::empty(), fields.drop_last(), k);
            assert(record_key_names(fields) == names_insert_all(
                record_key_names(fields.drop_last()),
                field_key_names(f),
            ));
            lemma_nia_contains(record_key_names(fields.drop_last()), field_key_names(f), k);
        }
        lemma_entries_congruence(
            fields.drop_last(),
            keys_a,
            keys_b,
            sh_a.union(fk),
            sh_b.union(fk),
        );
        assert forall|k: Seq<char>|
            field_key_names(f).contains(k) && !sh_b.contains(k) implies lookup_node(keys_a, k)
            == lookup_node(keys_b, k) by {
            assert(record_key_names(fields) == names_insert_all(
                record_key_names(fields.drop_last()),
                field_key_names(f),
            ));
            lemma_nia_contains(record_key_names(fields.drop_last()), field_key_names(f), k);
        }
        lemma_field_entry_congruence(f, keys_a, keys_b, sh_a, sh_b);
    }
}

proof fn lemma_field_entry_congruence(
    f: NamedField,
    keys_a: Seq<(String, ApiBodyInfo)>,
    keys_b: Seq<(String, ApiBodyInfo)>,
    sh_a: Set<Seq<char>>,
    sh_b: Set<Seq<char>>,
)
    requires
        field_entry_ok(f, keys_a, sh_a),
        sh_a.subset_of(sh_b),
        forall|k: Seq<char>|
            field_key_names(f).contains(k) && !sh_b.contains(k) ==> lookup_node(keys_a, k)
                == lookup_node(keys_b, k),
    ensures
        field_entry_ok(f, keys_b, sh_b),
    decreases f, 0int,
{
    if !spec_flatten(f.attrs@) {
        assert(field_key_names(f) == seq![f.name@]);
        assert(field_key_names(f).contains(f.name@)) by {
            assert(field_key_names(f)[0] == f.name@);
        }
    } else {
        match f.ty {
            ApiType::Record(d) => match d.fields {
                Fields::Named(fs) => {
                    lemma_entries_congruence(fs@, keys_a, keys_b, sh_a, sh_b);
                },
                _ => {},
            },
            _ => {},
        }
    }
}

// ---------------------------------------------------------------------------
// The executable derivation engine.
// ---------------------------------------------------------------------------
/// Insert an entry with map semantics: a present name keeps its position and
/// takes the new node; an absent one is appended.
#[verifier::loop_isolation(false)]
fn object_insert(entries: &mut Vec<(String, ApiBodyInfo)>, name: String, node: ApiBodyInfo)
    ensures
        names_of(final(entries)@) == names_insert(names_of(old(entries)@), name@),
        lookup_node(final(entries)@, name@) == Some(node),
        forall|k: Seq<char>|
            k != name@ ==> lookup_node(final(entries)@, k) == lookup_node(old(entries)@, k),
{
    let ghost name_view = name@;
    let ghost before = entries@;
    let mut i: usize = 0;
    while i < entries.len()
        invariant
            0 <= i <= entries@.len(),
            entries@ == before,
            forall|j: int| 0 <= j < i ==> names_of(before)[j] != name_view,
            name@ == name_view,
        decreases entries@.len() - i,
    {
        if entries[i].0.eq(&name) {
            proof {
                assert(names_of(before)[i as int] == before[i as int].0@);
                assert(forall|j: int| 0 <= j < before.len() ==> names_of(before)[j] == before[j].0@);
            }
            let ghost p = (name, node);
            entries.remove(i);
            entries.insert(i, (name, node));
            proof {
                assert(p.0@ == name_view);
                assert(before[i as int].0@ == name_view);
                assert forall|j: int| 0 <= j < i as int implies before[j].0@ != p.0@ by {
                    assert(names_of(before)[j] == before[j].0@);
                    assert(names_of(before)[j] != name_view);
                }
                assert(entries@ =~= before.update(i as int, p));
                lemma_lookup_update(before, i as int, p);
                assert(names_of(entries@) =~= names_of(before));
                assert(names_of(before).contains(name_view)) by {
                    assert(names_of(before)[i as int] == name_view);
                }
            }
            return ;
        }
        proof {
            assert(names_of(before)[i as int] == before[i as int].0@);
        }
        i = i + 1;
    }
    let ghost p = (name, node);
    entries.push((name, node));
    proof {
        assert(entries@ =~= before.push(p));
        lemma_lookup_push(before, p, name_view);
        lemma_lookup_none(before, name_view);
        assert(!names_of(before).contains(name_view)) by {
            if names_of(before).contains(name_view) {
                let j = choose|j: int|
                    0 <= j < names_of(before).len() && names_of(before)[j] == name_view;
                assert(names_of(before)[j] != name_view);
            }
        }
        assert(names_of(entries@) =~= names_of(before).push(name_view));
        assert forall|k: Seq<char>| k != name_view implies lookup_node(entries@, k) == lookup_node(
            before,
            k,
        ) by {
            lemma_lookup_push(before, p, k);
            lemma_lookup_none(before, k);
        }
    }
}

/// Insert every entry of `more`, in order.
#[verifier::loop_isolation(false)]
fn object_insert_all(entries: &mut Vec<(String, ApiBodyInfo)>, more: Vec<(String, ApiBodyInfo)>)
    requires
        no_dup_names(names_of(more@)),
    ensures
        names_of(final(entries)@) == names_insert_all(names_of(old(entries)@), names_of(more@)),
        forall|k: Seq<char>|
            names_of(more@).contains(k) ==> lookup_node(final(entries)@, k) == lookup_node(more@, k),
        forall|k: Seq<char>|
            !names_of(more@).contains(k) ==> lookup_node(final(entries)@, k) == lookup_node(
                old(entries)@,
                k,
            ),
{
    let ghost before = old(entries)@;
    let ghost m0 = more@;
    let mut rest = more;
    let ghost mut j: int = 0;
    while rest.len() > 0
        invariant
            0 <= j <= m0.len(),
            rest@ =~= m0.subrange(j, m0.len() as int),
            no_dup_names(names_of(m0)),
            names_of(entries@) == names_insert_all(names_of(before), names_of(m0.subrange(0, j))),
            forall|k: Seq<char>|
                names_of(m0.subrange(0, j)).contains(k) ==> lookup_node(entries@, k)
                    == lookup_node(m0, k),
            forall|k: Seq<char>|
                !names_of(m0.subrange(0, j)).contains(k) ==> lookup_node(entries@, k)
                    == lookup_node(before, k),
        decreases rest@.len(),
    {
        let p = rest.remove(0);
        let ghost prev = entries@;
        proof {
            assert(p == m0[j]);
            assert(rest@ =~= m0.subrange(j + 1, m0.len() as int));
        }
        let ghost pname = p.0@;
        object_insert(entries, p.0, p.1);
        proof {
            let pre = m0.subrange(0, j);
            let nxt = m0.subrange(0, j + 1);
            assert(nxt.drop_last() =~= pre);
            assert(nxt.last() == m0[j]);
            assert(names_of(nxt) =~= names_of(pre).push(pname));
            assert(names_of(nxt).drop_last() =~= names_of(pre));
            assert(names_insert_all(names_of(before), names_of(nxt)) == names_insert(
                names_insert_all(names_of(before), names_of(pre)),
                pname,
            )) by {
                assert(names_of(nxt).last() == pname);
            }
            lemma_lookup_by_index(m0, j);
            assert(lookup_node(m0, pname) == Some(m0[j].1));
            assert forall|k: Seq<char>| names_of(nxt).contains(k) implies lookup_node(entries@, k)
                == lookup_node(m0, k) by {
                lemma_push_contains(names_of(pre), pname, k);
                if k == pname {
                } else {
                    assert(names_of(pre).contains(k));
                }
            }
            assert forall|k: Seq<char>| !names_of(nxt).contains(k) implies lookup_node(entries@, k)
                == lookup_node(before, k) by {
                lemma_push_contains(names_of(pre), pname, k);
                assert(k != pname);
                assert(!names_of(pre).contains(k));
            }
            j = j + 1;
        }
    }
    proof {
        assert(m0.subrange(0, j) =~= m0);
    }
}

/// The injected tag entry for a variant: the fixed description "Variant tag"
/// and the variant's name as a string literal.
fn tag_node(variant_name: &String) -> (r: ApiBodyInfo)
    ensures
        is_tag_node(r, variant_name@),
{
    ApiBodyInfo {
        description: String::from_str("Variant tag"),
        ty: ApiBodyType::StringLiteral { literal: variant_name.clone() },
    }
}

#[verifier::loop_isolation(false)]
/// Derive the object entries of a list of named fields, starting from the
/// already-present entries `init` (a pre-seeded tag). Later writes win.
fn derive_named_entries(fields: &Vec<NamedField>, init: Vec<(String, ApiBodyInfo)>) -> (r: Result<
    Vec<(String, ApiBodyInfo)>,
    DeriveError,
>)
    ensures
        r is Ok <==> (forall|i: int| 0 <= i < fields@.len() ==> named_field_ok(#[trigger] fields@[i])),
        r matches Ok(keys) ==> {
            &&& names_of(keys@) == rkn_from(names_of(init@), fields@)
            &&& fields_entries_ok(fields@, keys@, Set::empty())
            &&& forall|k: Seq<char>|
                !record_key_names(fields@).contains(k) ==> lookup_node(keys@, k) == lookup_node(
                    init@,
                    k,
                )
        },
    decreases fields@, 2int,
{
    let ghost init_view = init@;
    let mut acc = init;
    let mut i: usize = 0;
    while i < fields.len()
        invariant
            0 <= i <= fields@.len(),
            forall|j: int| 0 <= j < i ==> named_field_ok(#[trigger] fields@[j]),
            names_of(acc@) == rkn_from(names_of(init_view), fields@.subrange(0, i as int)),
            fields_entries_ok(fields@.subrange(0, i as int), acc@, Set::empty()),
            forall|k: Seq<char>|
                !record_key_names(fields@.subrange(0, i as int)).contains(k) ==> lookup_node(
                    acc@,
                    k,
                ) == lookup_node(init_view, k),
        decreases fields@.len() - i,
    {
        let ghost prefix = fields@.subrange(0, i as int);
        let ghost next = fields@.subrange(0, i + 1 as int);
        let ghost fg = fields@[i as int];
        proof {
            assert(next.drop_last() =~= prefix);
            assert(next.last() == fg);
        }
        let f = &fields[i];
        let props = match crate::decl::parse(&f.attrs) {
            Ok(p) => p,
            Err(e) => {
                proof {
                    assert(!named_field_ok(fg));
                }
                return Err(e);
            },
        };
        let ghost before = acc@;
        if props.flatten {
            let si = match api_body_struct_info(&f.ty) {
                Ok(si) => si,
                Err(e) => {
                    proof {
                        assert(!named_field_ok(fg));
                    }
                    return Err(e);
                },
            };
            let ghost si_entries = si.struc@;
            let ghost inner_fields = match fg.ty {
                ApiType::Record(d) => match d.fields {
                    Fields::Named(fs) => fs@,
                    _ => Seq::empty(),
                },
                _ => Seq::empty(),
            };
            proof {
                assert(is_named_record(fg.ty));
                assert(names_of(si_entries) == record_key_names(inner_fields));
                assert(field_key_names(fg) == record_key_names(inner_fields));
                lemma_rkn_no_dup(Seq::empty(), inner_fields);
            }
            object_insert_all(&mut acc, si.struc);
            proof {
                assert(named_field_ok(fg));
                lemma_step_names(names_of(init_view), prefix, fg, next);
                assert(names_of(acc@) == rkn_from(names_of(init_view), next));
                // the entries of the earlier fields survive, shadowed by this field's keys
                lemma_entries_congruence(
                    prefix,
                    before,
                    acc@,
                    Set::empty(),
                    Set::empty().union(field_key_names(fg).to_set()),
                );
                // this field's own entries are exactly the flattened record's
                lemma_entries_congruence(
                    inner_fields,
                    si_entries,
                    acc@,
                    Set::empty(),
                    Set::empty(),
                );
                assert(field_entry_ok(fg, acc@, Set::empty()));
                assert(fields_entries_ok(next, acc@, Set::empty()));
                lemma_step_lookup(init_view, prefix, fg, next, before, acc@);
            }
        } else {
            let node = match api_body_info(&f.ty) {
                Ok(n) => n,
                Err(e) => {
                    proof {
                        assert(!named_field_ok(fg));
                    }
                    return Err(e);
                },
            };
            let node = if props.docs.unicode_len() > 0 {
                ApiBodyInfo { description: props.docs, ty: node.ty }
            } else {
                node
            };
            proof {
                assert(named_field_derives_to(fg, node));
            }
            object_insert(&mut acc, f.name.clone(), node);
            proof {
                assert(named_field_ok(fg));
                assert(field_key_names(fg) == seq![fg.name@]);
                lemma_step_names(names_of(init_view), prefix, fg, next);
                assert(names_insert_all(names_of(before), seq![fg.name@]) == names_insert(
                    names_of(before),
                    fg.name@,
                )) by {
                    assert(seq![fg.name@].drop_last() =~= Seq::<Seq<char>>::empty());
                    assert(seq![fg.name@].last() == fg.name@);
                    assert(names_insert_all(names_of(before), Seq::<Seq<char>>::empty())
                        == names_of(before));
                }
                assert(names_of(acc@) == rkn_from(names_of(init_view), next));
                assert forall|k: Seq<char>|
                    record_key_names(prefix).contains(k) && !Set::empty().union(
                        field_key_names(fg).to_set(),
                    ).contains(k) implies lookup_node(before, k) == lookup_node(acc@, k) by {
                    assert(field_key_names(fg).to_set().contains(fg.name@)) by {
                        assert(field_key_names(fg)[0] == fg.name@);
                    }
                    assert(k != fg.name@);
                }
                lemma_entries_congruence(
                    prefix,
                    before,
                    acc@,
                    Set::empty(),
                    Set::empty().union(field_key_names(fg).to_set()),
                );
                assert(field_entry_ok(fg, acc@, Set::empty()));
                assert(fields_entries_ok(next, acc@, Set::empty()));
                lemma_step_lookup(init_view, prefix, fg, next, before, acc@);
            }
        }
        i = i + 1;
    }
    proof {
        assert(fields@.subrange(0, fields@.len() as int) =~= fields@);
    }
    Ok(acc)
}

/// After one field is folded in: the merged names grow by the field's keys.
pub proof fn lemma_step_names(
    init_names: Seq<Seq<char>>,
    prefix: Seq<NamedField>,
    f: NamedField,
    next: Seq<NamedField>,
)
    requires
        next.drop_last() == prefix,
        next.last() == f,
        next.len() == prefix.len() + 1,
    ensures
        rkn_from(init_names, next) == names_insert_all(
            rkn_from(init_names, prefix),
            field_key_names(f),
        ),
        record_key_names(next) == names_insert_all(record_key_names(prefix), field_key_names(f)),
{
}

/// After one field is folded in: keys outside the merged names are untouched.
proof fn lemma_step_lookup(
    init_view: Seq<(String, ApiBodyInfo)>,
    prefix: Seq<NamedField>,
    f: NamedField,
    next: Seq<NamedField>,
    before: Seq<(String, ApiBodyInfo)>,
    after: Seq<(String, ApiBodyInfo)>,
)
    requires
        next.drop_last() == prefix,
        next.last() == f,
        next.len() == prefix.len() + 1,
        forall|k: Seq<char>|
            !record_key_names(prefix).contains(k) ==> lookup_node(before, k) == lookup_node(
                init_view,
                k,
            ),
        forall|k: Seq<char>|
            !field_key_names(f).contains(k) ==> lookup_node(after, k) == lookup_node(before, k),
    ensures
        forall|k: Seq<char>|
            !record_key_names(next).contains(k) ==> lookup_node(after, k) == lookup_node(
                init_view,
                k,
            ),
{
    assert forall|k: Seq<char>| !record_key_names(next).contains(k) implies lookup_node(after, k)
        == lookup_node(init_view, k) by {
        assert(record_key_names(next) == names_insert_all(
            record_key_names(prefix),
            field_key_names(f),
        ));
        lemma_nia_contains(record_key_names(prefix), field_key_names(f), k);
        assert(!record_key_names(prefix).contains(k));
        assert(!field_key_names(f).contains(k));
    }
}

/// Derive the object form of a record with named fields: its description and
/// its entries. Any other declaration is refused: only such a record can be
/// flattened into a parent or wrapped by a tagged variant.
pub fn api_body_struct_info(t: &ApiType) -> (r: Result<ApiBodyStructInfo, DeriveError>)
    ensures
        r is Ok <==> (decl_ok(*t) && is_named_record(*t)),
        r matches Ok(si) ==> match *t {
            ApiType::Record(d) => match d.fields {
                Fields::Named(fs) => {
                    &&& si.description@ == spec_docs(d.attrs@)
                    &&& names_of(si.struc@) == record_key_names(fs@)
                    &&& fields_entries_ok(fs@, si.struc@, Set::empty())
                },
                _ => false,
            },
            _ => false,
        },
    decreases *t, 1int,
{
    match t {
        ApiType::Record(d) => match &d.fields {
            Fields::Named(fs) => {
                let props = match crate::decl::parse(&d.attrs) {
                    Ok(p) => p,
                    Err(e) => {
                        return Err(e);
                    },
                };
                let entries = match derive_named_entries(fs, Vec::new()) {
                    Ok(es) => es,
                    Err(e) => {
                        return Err(e);
                    },
                };
                proof {
                    assert(names_of(Seq::<(String, ApiBodyInfo)>::empty())
                        =~= Seq::<Seq<char>>::empty());
                }
                Ok(ApiBodyStructInfo { description: props.docs, struc: entries })
            },
            _ => Err(DeriveError::NotAStruct),
        },
        _ => Err(DeriveError::NotAStruct),
    }
}

#[verifier::loop_isolation(false)]
/// Derive the schema node of a declared type. Success exactly on the
/// declarations that `decl_ok` accepts; the node is pinned by `derives_to`.
/// A malformed declaration is a hard error here, at registration time.
pub fn api_body_info(t: &ApiType) -> (r: Result<ApiBodyInfo, DeriveError>)
    ensures
        r is Ok <==> decl_ok(*t),
        r matches Ok(s) ==> derives_to(*t, s),
    decreases *t, 2int,
{
    match t {
        ApiType::Number => Ok(crate::schema::plain(ApiBodyType::Number)),
        ApiType::Boolean => Ok(crate::schema::plain(ApiBodyType::Boolean)),
        ApiType::Text => Ok(crate::schema::plain(ApiBodyType::String)),
        ApiType::Unit => Ok(crate::schema::plain(ApiBodyType::Null)),
        ApiType::AnyJson => Ok(crate::schema::plain(ApiBodyType::Any)),
        ApiType::Uuid => Ok(
            ApiBodyInfo { description: String::from_str("A UUID"), ty: ApiBodyType::String },
        ),
        ApiType::DateTime => Ok(
            ApiBodyInfo { description: String::from_str("A Datetime"), ty: ApiBodyType::String },
        ),
        ApiType::ArrayOf(inner) => {
            let v = match api_body_info(inner) {
                Ok(v) => v,
                Err(e) => {
                    return Err(e);
                },
            };
            Ok(crate::schema::plain(ApiBodyType::ArrayOf { value: Box::new(v) }))
        },
        ApiType::MapOf(inner) => {
            let v = match api_body_info(inner) {
                Ok(v) => v,
                Err(e) => {
                    return Err(e);
                },
            };
            Ok(crate::schema::plain(ApiBodyType::ObjectOf { value: Box::new(v) }))
        },
        ApiType::Optional(inner) => {
            let v = match api_body_info(inner) {
                Ok(v) => v,
                Err(e) => {
                    return Err(e);
                },
            };
            Ok(crate::schema::plain(ApiBodyType::Optional { value: Box::new(v) }))
        },
        ApiType::Tuple(ts) => {
            if ts.len() == 0 {
                return Err(DeriveError::UnitStructNotSupported);
            }
            let mut values: Vec<ApiBodyInfo> = Vec::new();
            let mut i: usize = 0;
            while i < ts.len()
                invariant
                    0 <= i <= ts@.len(),
                    values@.len() == i,
                    forall|j: int| 0 <= j < i ==> decl_ok(#[trigger] ts@[j]),
                    forall|j: int| 0 <= j < i ==> derives_to(#[trigger] ts@[j], values@[j]),
                decreases ts@.len() - i,
            {
                let v = match api_body_info(&ts[i]) {
                    Ok(v) => v,
                    Err(e) => {
                        proof {
                            assert(!decl_ok(ts@[i as int]));
                        }
                        return Err(e);
                    },
                };
                values.push(v);
                i = i + 1;
            }
            proof {
                assert(decl_ok(*t));
            }
            Ok(crate::schema::plain(ApiBodyType::TupleOf { values }))
        },
        ApiType::Record(_) => derive_record(t),
        ApiType::Union(_) => derive_union(t),
    }
}

/// Derive the schema node of a record declaration.
#[verifier::loop_isolation(false)]
#[verifier::rlimit(50)]
fn derive_record(t: &ApiType) -> (r: Result<ApiBodyInfo, DeriveError>)
    requires
        *t is Record,
    ensures
        r is Ok <==> decl_ok(*t),
        r matches Ok(s) ==> derives_to(*t, s),
    decreases *t, 0int,
{
    match t {
        ApiType::Record(d) => {
            let props = match crate::decl::parse(&d.attrs) {
                Ok(p) => p,
                Err(e) => {
                    return Err(e);
                },
            };
            match &d.fields {
                Fields::Unit => Err(DeriveError::UnitStructNotSupported),
                Fields::Single(f) => {
                    let fp = match crate::decl::parse(&f.attrs) {
                        Ok(p) => p,
                        Err(e) => {
                            proof {
                                assert(!field_ok(*f));
                            }
                            return Err(e);
                        },
                    };
                    let inner = match api_body_info(&f.ty) {
                        Ok(v) => v,
                        Err(e) => {
                            proof {
                                assert(!field_ok(*f));
                            }
                            return Err(e);
                        },
                    };
                    proof {
                        assert(field_ok(*f));
                        assert(decl_ok(*t));
                    }
                    let description = if props.docs.unicode_len() > 0 {
                        props.docs
                    } else if fp.docs.unicode_len() > 0 {
                        fp.docs
                    } else {
                        inner.description
                    };
                    Ok(ApiBodyInfo { description, ty: inner.ty })
                },
                Fields::Unnamed(fs) => {
                    if fs.len() < 2 {
                        return Err(DeriveError::UnitStructNotSupported);
                    }
                    let mut values: Vec<ApiBodyInfo> = Vec::new();
                    let mut i: usize = 0;
                    while i < fs.len()
                        invariant
                            0 <= i <= fs@.len(),
                            values@.len() == i,
                            forall|j: int| 0 <= j < i ==> field_ok(#[trigger] fs@[j]),
                            forall|j: int|
                                0 <= j < i ==> field_derives_to(#[trigger] fs@[j], values@[j]),
                        decreases fs@.len() - i,
                    {
                        let f = &fs[i];
                        let fp = match crate::decl::parse(&f.attrs) {
                            Ok(p) => p,
                            Err(e) => {
                                proof {
                                    assert(!field_ok(fs@[i as int]));
                                }
                                return Err(e);
                            },
                        };
                        let node = match api_body_info(&f.ty) {
                            Ok(v) => v,
                            Err(e) => {
                                proof {
                                    assert(!field_ok(fs@[i as int]));
                                }
                                return Err(e);
                            },
                        };
                        let node = if fp.docs.unicode_len() > 0 {
                            ApiBodyInfo { description: fp.docs, ty: node.ty }
                        } else {
                            node
                        };
                        values.push(node);
                        i = i + 1;
                    }
                    proof {
                        assert(decl_ok(*t));
                    }
                    Ok(ApiBodyInfo { description: props.docs, ty: ApiBodyType::TupleOf { values } })
                },
                Fields::Named(fs) => {
                    let entries = match derive_named_entries(fs, Vec::new()) {
                        Ok(es) => es,
                        Err(e) => {
                            return Err(e);
                        },
                    };
                    proof {
                        assert(names_of(Seq::<(String, ApiBodyInfo)>::empty())
                            =~= Seq::<Seq<char>>::empty());
                        assert(decl_ok(*t));
                    }
                    Ok(
                        ApiBodyInfo {
                            description: props.docs,
                            ty: ApiBodyType::Object { keys: entries },
                        },
                    )
                },
            }
        },
        _ => Err(DeriveError::NotAStruct),
    }
}

/// Derive the schema node of a union declaration: one alternative for each
/// variant, tagged or string-literal.
#[verifier::loop_isolation(false)]
#[verifier::rlimit(50)]
fn derive_union(t: &ApiType) -> (r: Result<ApiBodyInfo, DeriveError>)
    requires
        *t is Union,
    ensures
        r is Ok <==> decl_ok(*t),
        r matches Ok(s) ==> derives_to(*t, s),
    decreases *t, 0int,
{
    match t {
        ApiType::Union(e) => {
            let props = match crate::decl::parse(&e.attrs) {
                Ok(p) => p,
                Err(err) => {
                    return Err(err);
                },
            };
            let tag: String = match props.tag {
                Some(tg) => tg,
                None => String::from_str("kind"),
            };
            let ghost tag_view = spec_enum_tag(**e);
            proof {
                assert(tag@ == tag_view);
            }
            let mut values: Vec<ApiBodyInfo> = Vec::new();
            let mut seen_unit = false;
            let mut seen_nonunit = false;
            let mut i: usize = 0;
            let variants = &e.variants;
            while i < variants.len()
                invariant
                    0 <= i <= variants@.len(),
                    values@.len() == i,
                    tag@ == tag_view,
                    seen_unit == has_unit_variant(variants@.subrange(0, i as int)),
                    seen_nonunit == has_nonunit_variant(variants@.subrange(0, i as int)),
                    !(seen_unit && seen_nonunit),
                    forall|j: int| 0 <= j < i ==> variant_ok(#[trigger] variants@[j]),
                    forall|j: int|
                        0 <= j < i ==> variant_derives_to(
                            tag_view,
                            #[trigger] variants@[j],
                            values@[j],
                        ),
                decreases variants@.len() - i,
            {
                let ghost prefix = variants@.subrange(0, i as int);
                let ghost next = variants@.subrange(0, i + 1 as int);
                let ghost vg = variants@[i as int];
                proof {
                    lemma_variant_prefix(variants@, i as int);
                }
                let v = &variants[i];
                let vp = match crate::decl::parse(&v.attrs) {
                    Ok(p) => p,
                    Err(err) => {
                        proof {
                            assert(!variant_ok(vg));
                        }
                        return Err(err);
                    },
                };
                let node: ApiBodyInfo = match &v.fields {
                    Fields::Unit => {
                        seen_unit = true;
                        if seen_nonunit {
                            proof {
                                assert(has_nonunit_variant(variants@));
                                assert(has_unit_variant(variants@)) by {
                                    assert(variants@[i as int].fields is Unit);
                                }
                            }
                            return Err(DeriveError::MixedUnitAndNamedVariants);
                        }
                        ApiBodyInfo {
                            description: vp.docs,
                            ty: ApiBodyType::StringLiteral { literal: v.name.clone() },
                        }
                    },
                    Fields::Single(f) => {
                        seen_nonunit = true;
                        if seen_unit {
                            proof {
                                assert(has_unit_variant(variants@));
                                assert(has_nonunit_variant(variants@)) by {
                                    assert(!(variants@[i as int].fields is Unit));
                                }
                            }
                            return Err(DeriveError::MixedUnitAndNamedVariants);
                        }
                        match crate::decl::parse(&f.attrs) {
                            Ok(_) => {},
                            Err(err) => {
                                proof {
                                    assert(!variant_ok(vg));
                                }
                                return Err(err);
                            },
                        };
                        let si = match api_body_struct_info(&f.ty) {
                            Ok(si) => si,
                            Err(err) => {
                                proof {
                                    assert(!variant_ok(vg));
                                }
                                return Err(err);
                            },
                        };
                        let ghost inner_fields = match vg.fields {
                            Fields::Single(ff) => match ff.ty {
                                ApiType::Record(dd) => match dd.fields {
                                    Fields::Named(fs) => fs@,
                                    _ => Seq::empty(),
                                },
                                _ => Seq::empty(),
                            },
                            _ => Seq::empty(),
                        };
                        let ghost si_entries = si.struc@;
                        let description = if vp.docs.unicode_len() > 0 {
                            vp.docs
                        } else {
                            si.description
                        };
                        let mut keys = si.struc;
                        let tn = tag_node(&v.name);
                        object_insert(&mut keys, tag.clone(), tn);
                        proof {
                            assert forall|k: Seq<char>|
                                record_key_names(inner_fields).contains(k) && !Set::empty().insert(
                                    tag_view,
                                ).contains(k) implies lookup_node(si_entries, k) == lookup_node(
                                keys@,
                                k,
                            ) by {
                                assert(k != tag_view);
                            }
                            lemma_entries_congruence(
                                inner_fields,
                                si_entries,
                                keys@,
                                Set::empty(),
                                Set::empty().insert(tag_view),
                            );
                            assert(spec_desc(f.ty) == spec_docs(
                                match f.ty {
                                    ApiType::Record(dd) => dd.attrs@,
                                    _ => Seq::empty(),
                                },
                            ));
                        }
                        ApiBodyInfo { description, ty: ApiBodyType::Object { keys } }
                    },
                    Fields::Unnamed(_) => {
                        proof {
                            assert(!variant_ok(vg));
                        }
                        return Err(DeriveError::TupleVariantNotAllowed);
                    },
                    Fields::Named(fs) => {
                        seen_nonunit = true;
                        if seen_unit {
                            proof {
                                assert(has_unit_variant(variants@));
                                assert(has_nonunit_variant(variants@)) by {
                                    assert(!(variants@[i as int].fields is Unit));
                                }
                            }
                            return Err(DeriveError::MixedUnitAndNamedVariants);
                        }
                        let tn = tag_node(&v.name);
                        let mut init: Vec<(String, ApiBodyInfo)> = Vec::new();
                        init.push((tag.clone(), tn));
                        let ghost init_view = init@;
                        proof {
                            assert(names_of(init_view) =~= seq![tag_view]);
                        }
                        let keys = match derive_named_entries(fs, init) {
                            Ok(ks) => ks,
                            Err(err) => {
                                proof {
                                    assert(!variant_ok(vg));
                                }
                                return Err(err);
                            },
                        };
                        proof {
                            if !record_key_names(fs@).contains(tag_view) {
                                assert(lookup_node(keys@, tag_view) == lookup_node(
                                    init_view,
                                    tag_view,
                                ));
                            }
                        }
                        ApiBodyInfo { description: vp.docs, ty: ApiBodyType::Object { keys } }
                    },
                };
                proof {
                    assert(variant_derives_to(tag_view, vg, node));
                    lemma_variant_flags(variants@, i as int, seen_unit, seen_nonunit);
                }
                values.push(node);
                i = i + 1;
            }
            proof {
                assert(variants@.subrange(0, variants@.len() as int) =~= variants@);
                assert(decl_ok(*t));
            }
            Ok(ApiBodyInfo { description: props.docs, ty: ApiBodyType::OneOf { values } })
        },
        _ => Err(DeriveError::NotAStruct),
    }
}

/// Prefix facts used while walking a union's variants.
proof fn lemma_variant_prefix(vs: Seq<VariantDecl>, i: int)
    requires
        0 <= i < vs.len(),
    ensures
        vs.subrange(0, i + 1).drop_last() =~= vs.subrange(0, i),
        vs.subrange(0, i + 1).last() == vs[i],
        has_unit_variant(vs.subrange(0, i)) ==> has_unit_variant(vs),
        has_nonunit_variant(vs.subrange(0, i)) ==> has_nonunit_variant(vs),
{
    let p = vs.subrange(0, i);
    if has_unit_variant(p) {
        let j = choose|j: int| 0 <= j < p.len() && p[j].fields is Unit;
        assert(vs[j].fields is Unit);
    }
    if has_nonunit_variant(p) {
        let j = choose|j: int| 0 <= j < p.len() && !(p[j].fields is Unit);
        assert(!(vs[j].fields is Unit));
    }
}

/// The seen-unit and seen-non-unit flags track the prefix exactly.
proof fn lemma_variant_flags(vs: Seq<VariantDecl>, i: int, su: bool, sn: bool)
    requires
        0 <= i < vs.len(),
        su == (has_unit_variant(vs.subrange(0, i)) || vs[i].fields is Unit),
        sn == (has_nonunit_variant(vs.subrange(0, i)) || !(vs[i].fields is Unit)),
    ensures
        su == has_unit_variant(vs.subrange(0, i + 1)),
        sn == has_nonunit_variant(vs.subrange(0, i + 1)),
{
    let p = vs.subrange(0, i);
    let n = vs.subrange(0, i + 1);
    assert(n.drop_last() =~= p);
    if has_unit_variant(p) {
        let j = choose|j: int| 0 <= j < p.len() && p[j].fields is Unit;
        assert(n[j].fields is Unit);
    }
    if vs[i].fields is Unit {
        assert(n[i].fields is Unit);
    }
    if has_unit_variant(n) {
        let j = choose|j: int| 0 <= j < n.len() && n[j].fields is Unit;
        if j < i {
            assert(p[j].fields is Unit);
        }
    }
    if has_nonunit_variant(p) {
        let j = choose|j: int| 0 <= j < p.len() && !(p[j].fields is Unit);
        assert(!(n[j].fields is Unit));
    }
    if !(vs[i].fields is Unit) {
        assert(!(n[i].fields is Unit));
    }
    if has_nonunit_variant(n) {
        let j = choose|j: int| 0 <= j < n.len() && !(n[j].fields is Unit);
        if j < i {
            assert(!(p[j].fields is Unit));
        }
    }
}

} // verus!
