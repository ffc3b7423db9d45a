//! A model of JSON values, and validation of a JSON value against a schema
//! node.

use vstd::prelude::*;
use crate::text::str_eq;
use crate::schema::{ApiBodyInfo, ApiBodyType};
use crate::derive::{names_of, no_dup_names};

verus! {

/// A JSON value: the wire form that typed values serialize to and that
/// request bodies decode to.
#[derive(Debug, PartialEq, Eq)]
pub enum JsonValue {
    /// The JSON value `null`.
    Null,
    /// A JSON boolean.
    Bool(bool),
    /// A JSON number (integers only: the API carries no floating point).
    Number(i64),
    /// A JSON string.
    String(String),
    /// A JSON array.
    Array(Vec<JsonValue>),
    /// A JSON object: ordered entries, names unique on the wire.
    Object(Vec<(String, JsonValue)>),
}

/// The names of a JSON object's entries, in order.
pub open spec fn jnames_of(entries: Seq<(String, JsonValue)>) -> Seq<Seq<char>> {
    entries.map_values(|p: (String, JsonValue)| p.0@)
}

/// The value stored under `k`, if any.
pub open spec fn jlookup(entries: Seq<(String, JsonValue)>, k: Seq<char>) -> Option<JsonValue>
    decreases entries.len(),
{
    if entries.len() == 0 {
        None
    } else if entries[0].0@ == k {
        Some(entries[0].1)
    } else {
        jlookup(entries.drop_first(), k)
    }
}

/// With unique names, the entry at an index is what lookup finds.
pub proof fn lemma_jlookup_by_index(entries: Seq<(String, JsonValue)>, j: int)
    requires
        no_dup_names(jnames_of(entries)),
        0 <= j < entries.len(),
    ensures
        jlookup(entries, entries[j].0@) == Some(entries[j].1),
    decreases entries.len(),
{
    if j == 0 {
    } else {
        assert(jnames_of(entries)[0] != jnames_of(entries)[j]);
        assert(jnames_of(entries.drop_first()) =~= jnames_of(entries).drop_first());
        lemma_jlookup_by_index(entries.drop_first(), j - 1);
    }
}

/// Lookup fails exactly on the names that are not there.
pub proof fn lemma_jlookup_none(entries: Seq<(String, JsonValue)>, k: Seq<char>)
    ensures
        (jlookup(entries, k) is None) <==> !jnames_of(entries).contains(k),
    decreases entries.len(),
{
    if entries.len() == 0 {
        assert(!jnames_of(entries).contains(k));
    } else {
        lemma_jlookup_none(entries.drop_first(), k);
        assert(jnames_of(entries.drop_first()) =~= jnames_of(entries).drop_first());
        if entries[0].0@ == k {
            assert(jnames_of(entries)[0] == k);
        } else {
            assert(jnames_of(entries).contains(k) <==> jnames_of(
                entries,
            ).drop_first().contains(k)) by {
                if jnames_of(entries).contains(k) {
                    let i = choose|i: int|
                        0 <= i < jnames_of(entries).len() && jnames_of(entries)[i] == k;
                    assert(i != 0);
                    assert(jnames_of(entries).drop_first()[i - 1] == k);
                }
                if jnames_of(entries).drop_first().contains(k) {
                    let i = choose|i: int|
                        0 <= i < jnames_of(entries).drop_first().len() && jnames_of(
                            entries,
                        ).drop_first()[i] == k;
                    assert(jnames_of(entries)[i + 1] == k);
                }
            }
        }
    }
}

/// Does the JSON value fit the schema node? Validation reads shapes only:
/// descriptions are documentation. An object must carry exactly the schema's
/// keys, each value fitting its node; a key of optional shape may be absent;
/// a one-of is fit by fitting any alternative.
pub open spec fn spec_validate(j: JsonValue, s: ApiBodyInfo) -> bool
    decreases s, 0int,
{
    match s.ty {
        ApiBodyType::String => j is String,
        ApiBodyType::Number => j is Number,
        ApiBodyType::Boolean => j is Bool,
        ApiBodyType::Null => j is Null,
        ApiBodyType::Any => true,
        ApiBodyType::ArrayOf { value } => j matches JsonValue::Array(js) && (forall|i: int|
            0 <= i < js@.len() ==> spec_validate(#[trigger] js@[i], *value)),
        ApiBodyType::TupleOf { values } => {
            &&& j matches JsonValue::Array(js)
            &&& js@.len() == values@.len()
            &&& forall|i: int| 0 <= i < js@.len() ==> spec_validate(#[trigger] js@[i], values@[i])
        },
        ApiBodyType::ObjectOf { value } => {
            &&& j matches JsonValue::Object(entries)
            &&& no_dup_names(jnames_of(entries@))
            &&& forall|i: int|
                0 <= i < entries@.len() ==> spec_validate(#[trigger] entries@[i].1, *value)
        },
        ApiBodyType::Object { keys } => {
            &&& j matches JsonValue::Object(entries)
            &&& no_dup_names(jnames_of(entries@))
            &&& keys_fit(entries@, keys@)
            &&& all_names_in(entries@, names_of(keys@))
        },
        ApiBodyType::OneOf { values } => exists|i: int|
            0 <= i < values@.len() && spec_validate(j, #[trigger] values@[i]),
        ApiBodyType::StringLiteral { literal } => j matches JsonValue::String(s2) && s2@
            == literal@,
        ApiBodyType::Optional { value } => j is Null || spec_validate(j, *value),
    }
}

/// One schema key is honored by an object: present and fitting, or absent
/// when its shape is optional.
pub open spec fn entry_fits(entries: Seq<(String, JsonValue)>, k: Seq<char>, s: ApiBodyInfo) -> bool
    decreases s, 1int,
{
    match jlookup(entries, k) {
        Some(jv) => spec_validate(jv, s),
        None => s.ty is Optional,
    }
}

/// Every schema key is honored by the object.
pub open spec fn keys_fit(
    entries: Seq<(String, JsonValue)>,
    keys: Seq<(String, ApiBodyInfo)>,
) -> bool
    decreases keys, 2int,
{
    if keys.len() == 0 {
        true
    } else {
        entry_fits(entries, keys[0].0@, keys[0].1) && keys_fit(entries, keys.drop_first())
    }
}

/// Every entry's name is among the given names: the object carries no key
/// outside the schema.
pub open spec fn all_names_in(entries: Seq<(String, JsonValue)>, names: Seq<Seq<char>>) -> bool
    decreases entries.len(),
{
    if entries.len() == 0 {
        true
    } else {
        names.contains(entries[0].0@) && all_names_in(entries.drop_first(), names)
    }
}

/// Pointwise fitting of every schema key gives `keys_fit`.
pub proof fn lemma_keys_fit_intro(
    entries: Seq<(String, JsonValue)>,
    keys: Seq<(String, ApiBodyInfo)>,
)
    requires
        forall|i: int|
            0 <= i < keys.len() ==> #[trigger] entry_fits(entries, keys[i].0@, keys[i].1),
    ensures
        keys_fit(entries, keys),
    decreases keys.len(),
{
    if keys.len() > 0 {
        assert(entry_fits(entries, keys[0].0@, keys[0].1));
        assert(forall|i: int|
            0 <= i < keys.drop_first().len() ==> #[trigger] entry_fits(
                entries,
                keys.drop_first()[i].0@,
                keys.drop_first()[i].1,
            )) by {
            assert(forall|i: int|
                0 <= i < keys.drop_first().len() ==> keys.drop_first()[i] == keys[i + 1]);
        }
        lemma_keys_fit_intro(entries, keys.drop_first());
    }
}


/// Pointwise membership of every entry name gives `all_names_in`.
pub proof fn lemma_all_names_in_intro(entries: Seq<(String, JsonValue)>, names: Seq<Seq<char>>)
    requires
        forall|i: int| 0 <= i < entries.len() ==> names.contains(#[trigger] entries[i].0@),
    ensures
        all_names_in(entries, names),
    decreases entries.len(),
{
    if entries.len() > 0 {
        assert(names.contains(entries[0].0@));
        assert(forall|i: int|
            0 <= i < entries.drop_first().len() ==> entries.drop_first()[i] == entries[i + 1]);
        lemma_all_names_in_intro(entries.drop_first(), names);
    }
}


/// Find the value stored under a name.
#[verifier::loop_isolation(false)]
pub fn lookup_value<'a>(entries: &'a Vec<(String, JsonValue)>, k: &str) -> (r: Option<
    &'a JsonValue,
>)
    ensures
        (r matches Some(v) && jlookup(entries@, k@) matches Some(s) && *v == s) || (r is None
            && jlookup(entries@, k@) is None),
{
    let mut i: usize = 0;
    proof {
        assert(entries@.subrange(0, entries@.len() as int) =~= entries@);
    }
    while i < entries.len()
        invariant
            0 <= i <= entries@.len(),
            jlookup(entries@, k@) == jlookup(
                entries@.subrange(i as int, entries@.len() as int),
                k@,
            ),
        decreases entries@.len() - i,
    {
        let ghost rest = entries@.subrange(i as int, entries@.len() as int);
        proof {
            assert(rest[0] == entries@[i as int]);
            assert(rest.drop_first() =~= entries@.subrange(i + 1 as int, entries@.len() as int));
        }
        if str_eq(entries[i].0.as_str(), k) {
            return Some(&entries[i].1);
        }
        i = i + 1;
    }
    None
}

/// Are the entry names pairwise distinct?
#[verifier::loop_isolation(false)]
pub fn object_names_unique(entries: &Vec<(String, JsonValue)>) -> (r: bool)
    ensures
        r == no_dup_names(jnames_of(entries@)),
{
    let ghost ns = jnames_of(entries@);
    let mut i: usize = 0;
    while i < entries.len()
        invariant
            0 <= i <= entries@.len(),
            forall|a: int, b: int| 0 <= a < b < entries@.len() && a < i ==> ns[a] != ns[b],
        decreases entries@.len() - i,
    {
        let mut j: usize = i + 1;
        while j < entries.len()
            invariant
                0 <= i < j <= entries@.len(),
                forall|b: int| i < b < j ==> ns[i as int] != ns[b],
            decreases entries@.len() - j,
        {
            proof {
                assert(ns[i as int] == entries@[i as int].0@);
                assert(ns[j as int] == entries@[j as int].0@);
            }
            if str_eq(entries[i].0.as_str(), entries[j].0.as_str()) {
                assert(!no_dup_names(ns)) by {
                    assert(ns[i as int] == ns[j as int]);
                }
                return false;
            }
            j = j + 1;
        }
        i = i + 1;
    }
    true
}

/// Decide whether the JSON value fits the schema node.
#[verifier::loop_isolation(false)]
#[verifier::rlimit(50)]
pub fn validate(j: &JsonValue, s: &ApiBodyInfo) -> (r: bool)
    ensures
        r == spec_validate(*j, *s),
    decreases *s, 2int,
{
    match &s.ty {
        ApiBodyType::String => matches!(j, JsonValue::String(_)),
        ApiBodyType::Number => matches!(j, JsonValue::Number(_)),
        ApiBodyType::Boolean => matches!(j, JsonValue::Bool(_)),
        ApiBodyType::Null => matches!(j, JsonValue::Null),
        ApiBodyType::Any => true,
        ApiBodyType::ArrayOf { value } => match j {
            JsonValue::Array(js) => {
                let mut i: usize = 0;
                while i < js.len()
                    invariant
                        0 <= i <= js@.len(),
                        forall|k: int| 0 <= k < i ==> spec_validate(#[trigger] js@[k], **value),
                    decreases js@.len() - i,
                {
                    if !validate(&js[i], value) {
                        return false;
                    }
                    i = i + 1;
                }
                true
            },
            _ => false,
        },
        ApiBodyType::TupleOf { values } => match j {
            JsonValue::Array(js) => {
                if js.len() != values.len() {
                    return false;
                }
                let mut i: usize = 0;
                while i < js.len()
                    invariant
                        0 <= i <= js@.len(),
                        js@.len() == values@.len(),
                        forall|k: int| 0 <= k < i ==> spec_validate(#[trigger] js@[k], values@[k]),
                    decreases js@.len() - i,
                {
                    if !validate(&js[i], &values[i]) {
                        return false;
                    }
                    i = i + 1;
                }
                true
            },
            _ => false,
        },
        ApiBodyType::ObjectOf { value } => match j {
            JsonValue::Object(entries) => {
                if !object_names_unique(entries) {
                    return false;
                }
                let mut i: usize = 0;
                while i < entries.len()
                    invariant
                        0 <= i <= entries@.len(),
                        forall|k: int|
                            0 <= k < i ==> spec_validate((#[trigger] entries@[k]).1, **value),
                    decreases entries@.len() - i,
                {
                    if !validate(&entries[i].1, value) {
                        return false;
                    }
                    i = i + 1;
                }
                true
            },
            _ => false,
        },
        ApiBodyType::Object { keys } => match j {
            JsonValue::Object(entries) => {
                if !object_names_unique(entries) {
                    return false;
                }
                let ghost full_keys = keys@;
                let mut i: usize = 0;
                proof {
                    assert(keys@.subrange(0, keys@.len() as int) =~= keys@);
                }
                while i < keys.len()
                    invariant
                        0 <= i <= keys@.len(),
                        keys_fit(entries@, keys@) == keys_fit(
                            entries@,
                            keys@.subrange(i as int, keys@.len() as int),
                        ),
                    decreases keys@.len() - i,
                {
                    let ghost rest = keys@.subrange(i as int, keys@.len() as int);
                    proof {
                        assert(rest[0] == keys@[i as int]);
                        assert(rest.drop_first() =~= keys@.subrange(
                            i + 1 as int,
                            keys@.len() as int,
                        ));
                    }
                    let fits = match lookup_value(entries, keys[i].0.as_str()) {
                        Some(jv) => validate(jv, &keys[i].1),
                        None => matches!(&keys[i].1.ty, ApiBodyType::Optional { .. }),
                    };
                    if !fits {
                        proof {
                            assert(!entry_fits(entries@, keys@[i as int].0@, keys@[i as int].1));
                            assert(!keys_fit(entries@, rest));
                        }
                        return false;
                    }
                    proof {
                        assert(entry_fits(entries@, keys@[i as int].0@, keys@[i as int].1));
                        assert(keys_fit(entries@, rest) == keys_fit(entries@, rest.drop_first()));
                    }
                    i = i + 1;
                }
                proof {
                    assert(keys@.subrange(keys@.len() as int, keys@.len() as int).len() == 0);
                }
                let mut e: usize = 0;
                proof {
                    assert(entries@.subrange(0, entries@.len() as int) =~= entries@);
                }
                while e < entries.len()
                    invariant
                        0 <= e <= entries@.len(),
                        all_names_in(entries@, crate::derive::names_of(keys@)) == all_names_in(
                            entries@.subrange(e as int, entries@.len() as int),
                            crate::derive::names_of(keys@),
                        ),
                    decreases entries@.len() - e,
                {
                    let ghost erest = entries@.subrange(e as int, entries@.len() as int);
                    proof {
                        assert(erest[0] == entries@[e as int]);
                        assert(erest.drop_first() =~= entries@.subrange(
                            e + 1 as int,
                            entries@.len() as int,
                        ));
                    }
                    let mut found = false;
                    let mut k: usize = 0;
                    while k < keys.len()
                        invariant
                            0 <= k <= keys@.len(),
                            !found ==> forall|a: int|
                                0 <= a < k ==> crate::derive::names_of(keys@)[a] != entries@[
                                    e as int
                                ].0@,
                            found ==> crate::derive::names_of(keys@).contains(
                                entries@[e as int].0@,
                            ),
                        decreases keys@.len() - k,
                    {
                        proof {
                            assert(crate::derive::names_of(keys@)[k as int] == keys@[k as int].0@);
                        }
                        if str_eq(entries[e].0.as_str(), keys[k].0.as_str()) {
                            found = true;
                            proof {
                                assert(crate::derive::names_of(keys@)[k as int] == entries@[
                                    e as int
                                ].0@);
                            }
                            break ;
                        }
                        k = k + 1;
                    }
                    if !found {
                        proof {
                            assert(!crate::derive::names_of(keys@).contains(
                                entries@[e as int].0@,
                            )) by {
                                if crate::derive::names_of(keys@).contains(entries@[e as int].0@) {
                                    let w = choose|w: int|
                                        0 <= w < crate::derive::names_of(keys@).len()
                                            && crate::derive::names_of(keys@)[w] == entries@[
                                            e as int
                                        ].0@;
                                }
                            }
                            assert(!all_names_in(erest, crate::derive::names_of(keys@)));
                        }
                        return false;
                    }
                    e = e + 1;
                }
                proof {
                    assert(entries@.subrange(
                        entries@.len() as int,
                        entries@.len() as int,
                    ).len() == 0);
                }
                true
            },
            _ => false,
        },
        ApiBodyType::OneOf { values } => {
            let mut i: usize = 0;
            while i < values.len()
                invariant
                    0 <= i <= values@.len(),
                    forall|k: int| 0 <= k < i ==> !spec_validate(*j, #[trigger] values@[k]),
                decreases values@.len() - i,
            {
                if validate(j, &values[i]) {
                    return true;
                }
                i = i + 1;
            }
            false
        },
        ApiBodyType::StringLiteral { literal } => match j {
            JsonValue::String(s2) => str_eq(s2.as_str(), literal.as_str()),
            _ => false,
        },
        ApiBodyType::Optional { value } => match j {
            JsonValue::Null => true,
            _ => validate(j, value),
        },
    }
}

} // verus!
