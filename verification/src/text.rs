//! Character-level string utilities: trimming, prefix tests, case-insensitive
//! comparison and lexicographic order.

use vstd::prelude::*;

verus! {

/// ASCII whitespace, as trimmed from the front of documentation lines.
pub open spec fn is_ws_char(c: char) -> bool {
    c == ' ' || c == '\t' || c == '\n' || c == '\r'
}

/// `s` with its leading ASCII whitespace removed.
pub open spec fn spec_trim_start_ws(s: Seq<char>) -> Seq<char>
    decreases s.len(),
{
    if s.len() > 0 && is_ws_char(s[0]) {
        spec_trim_start_ws(s.drop_first())
    } else {
        s
    }
}

/// `s` with its leading `c` characters removed.
pub open spec fn spec_trim_start_char(s: Seq<char>, c: char) -> Seq<char>
    decreases s.len(),
{
    if s.len() > 0 && s[0] == c {
        spec_trim_start_char(s.drop_first(), c)
    } else {
        s
    }
}

/// `s` with its trailing `c` characters removed.
pub open spec fn spec_trim_end_char(s: Seq<char>, c: char) -> Seq<char>
    decreases s.len(),
{
    if s.len() > 0 && s.last() == c {
        spec_trim_end_char(s.drop_last(), c)
    } else {
        s
    }
}

proof fn lemma_trim_start_ws_subrange(s: Seq<char>, i: int)
    requires
        0 <= i <= s.len(),
        forall|j: int| 0 <= j < i ==> is_ws_char(s[j]),
        i < s.len() ==> !is_ws_char(s[i]),
    ensures
        spec_trim_start_ws(s) == s.subrange(i, s.len() as int),
    decreases i,
{
    if i == 0 {
        assert(spec_trim_start_ws(s) =~= s.subrange(0, s.len() as int)) by {
            if s.len() > 0 && is_ws_char(s[0]) {
            } else {
                assert(s =~= s.subrange(0, s.len() as int));
            }
        }
    } else {
        let d = s.drop_first();
        assert(forall|j: int| 0 <= j < i - 1 ==> is_ws_char(d[j]));
        lemma_trim_start_ws_subrange(d, i - 1);
        assert(d.subrange(i - 1, d.len() as int) =~= s.subrange(i, s.len() as int));
    }
}

proof fn lemma_trim_start_char_subrange(s: Seq<char>, c: char, i: int)
    requires
        0 <= i <= s.len(),
        forall|j: int| 0 <= j < i ==> s[j] == c,
        i < s.len() ==> s[i] != c,
    ensures
        spec_trim_start_char(s, c) == s.subrange(i, s.len() as int),
    decreases i,
{
    if i == 0 {
        assert(spec_trim_start_char(s, c) =~= s.subrange(0, s.len() as int)) by {
            if s.len() > 0 && s[0] == c {
            } else {
                assert(s =~= s.subrange(0, s.len() as int));
            }
        }
    } else {
        let d = s.drop_first();
        assert(forall|j: int| 0 <= j < i - 1 ==> d[j] == c);
        lemma_trim_start_char_subrange(d, c, i - 1);
        assert(d.subrange(i - 1, d.len() as int) =~= s.subrange(i, s.len() as int));
    }
}

proof fn lemma_trim_end_char_subrange(s: Seq<char>, c: char, i: int)
    requires
        0 <= i <= s.len(),
        forall|j: int| i <= j < s.len() ==> s[j] == c,
        i > 0 ==> s[i - 1] != c,
    ensures
        spec_trim_end_char(s, c) == s.subrange(0, i),
    decreases s.len() - i,
{
    if i == s.len() {
        assert(spec_trim_end_char(s, c) =~= s.subrange(0, i)) by {
            if s.len() > 0 && s.last() == c {
            } else {
                assert(s =~= s.subrange(0, s.len() as int));
            }
        }
    } else {
        let d = s.drop_last();
        assert(forall|j: int| i <= j < d.len() ==> d[j] == c);
        lemma_trim_end_char_subrange(d, c, i);
        assert(d.subrange(0, i) =~= s.subrange(0, i));
    }
}

/// Remove leading ASCII whitespace from a string slice.
pub fn trim_start_ws<'a>(s: &'a str) -> (r: &'a str)
    ensures
        r@ == spec_trim_start_ws(s@),
{
    let n = s.unicode_len();
    let mut i: usize = 0;
    loop
        invariant
            0 <= i <= n,
            n == s@.len(),
            forall|j: int| 0 <= j < i ==> is_ws_char(s@[j]),
        ensures
            0 <= i <= n,
            forall|j: int| 0 <= j < i ==> is_ws_char(s@[j]),
            i < n ==> !is_ws_char(s@[i as int]),
        decreases n - i,
    {
        if i >= n {
            break ;
        }
        let c = s.get_char(i);
        if !(c == ' ' || c == '\t' || c == '\n' || c == '\r') {
            break ;
        }
        i = i + 1;
    }
    proof {
        lemma_trim_start_ws_subrange(s@, i as int);
    }
    s.substring_char(i, n)
}

/// Remove leading occurrences of `c` from a string slice.
pub fn trim_start_char<'a>(s: &'a str, c: char) -> (r: &'a str)
    ensures
        r@ == spec_trim_start_char(s@, c),
{
    let n = s.unicode_len();
    let mut i: usize = 0;
    while i < n && s.get_char(i) == c
        invariant
            0 <= i <= n,
            n == s@.len(),
            forall|j: int| 0 <= j < i ==> s@[j] == c,
        decreases n - i,
    {
        i = i + 1;
    }
    proof {
        lemma_trim_start_char_subrange(s@, c, i as int);
    }
    s.substring_char(i, n)
}

/// Remove leading and trailing occurrences of `c` from a string slice.
pub fn trim_matches_char<'a>(s: &'a str, c: char) -> (r: &'a str)
    ensures
        r@ == spec_trim_end_char(spec_trim_start_char(s@, c), c),
{
    let t = trim_start_char(s, c);
    let n = t.unicode_len();
    let mut i: usize = n;
    while i > 0 && t.get_char(i - 1) == c
        invariant
            0 <= i <= n,
            n == t@.len(),
            forall|j: int| i <= j < n ==> t@[j] == c,
        decreases i,
    {
        i = i - 1;
    }
    proof {
        lemma_trim_end_char_subrange(t@, c, i as int);
    }
    t.substring_char(0, i)
}

/// Does `s` begin with `prefix`?
pub fn str_starts_with(s: &str, prefix: &str) -> (r: bool)
    ensures
        r == prefix@.is_prefix_of(s@),
{
    let n = s.unicode_len();
    let p = prefix.unicode_len();
    if p > n {
        return false;
    }
    let mut i: usize = 0;
    while i < p
        invariant
            0 <= i <= p <= n,
            n == s@.len(),
            p == prefix@.len(),
            forall|j: int| 0 <= j < i ==> s@[j] == prefix@[j],
        decreases p - i,
    {
        if s.get_char(i) != prefix.get_char(i) {
            assert(!prefix@.is_prefix_of(s@)) by {
                assert(s@.subrange(0, p as int)[i as int] != prefix@[i as int]);
            }
            return false;
        }
        i = i + 1;
    }
    assert(prefix@.is_prefix_of(s@)) by {
        assert(s@.subrange(0, p as int) =~= prefix@);
    }
    true
}

/// The substring of `s` from character `from` (inclusive) to its end.
pub fn str_suffix_from<'a>(s: &'a str, from: usize) -> (r: &'a str)
    requires
        from <= s@.len(),
    ensures
        r@ == s@.subrange(from as int, s@.len() as int),
{
    let n = s.unicode_len();
    s.substring_char(from, n)
}

/// `a` and `b` match, treating ASCII letters case-insensitively.
pub open spec fn chars_eq_nocase(a: char, b: char) -> bool {
    ||| a == b
    ||| ('A' <= a && a <= 'Z' && b as u32 == a as u32 + 32)
    ||| ('A' <= b && b <= 'Z' && a as u32 == b as u32 + 32)
}

/// `a` and `b` are equal up to ASCII case.
pub open spec fn spec_eq_ignore_ascii_case(a: Seq<char>, b: Seq<char>) -> bool {
    a.len() == b.len() && (forall|i: int| 0 <= i < a.len() ==> chars_eq_nocase(a[i], b[i]))
}

/// Compare two strings, treating ASCII letters case-insensitively.
pub fn eq_ignore_ascii_case(a: &str, b: &str) -> (r: bool)
    ensures
        r == spec_eq_ignore_ascii_case(a@, b@),
{
    let n = a.unicode_len();
    if b.unicode_len() != n {
        return false;
    }
    let mut i: usize = 0;
    while i < n
        invariant
            0 <= i <= n,
            n == a@.len(),
            n == b@.len(),
            forall|j: int| 0 <= j < i ==> chars_eq_nocase(a@[j], b@[j]),
        decreases n - i,
    {
        let ca = a.get_char(i);
        let cb = b.get_char(i);
        let same = ca == cb || ('A' <= ca && ca <= 'Z' && cb as u32 == ca as u32 + 32) || ('A'
            <= cb && cb <= 'Z' && ca as u32 == cb as u32 + 32);
        if !same {
            return false;
        }
        i = i + 1;
    }
    true
}

/// Lexicographic order on character sequences, by code point.
pub open spec fn lex_le(a: Seq<char>, b: Seq<char>) -> bool
    decreases a.len(),
{
    if a.len() == 0 {
        true
    } else if b.len() == 0 {
        false
    } else if a[0] != b[0] {
        (a[0] as u32) < (b[0] as u32)
    } else {
        lex_le(a.drop_first(), b.drop_first())
    }
}

/// `lex_le` is total: any two sequences compare one way or the other.
pub proof fn lemma_lex_le_total(a: Seq<char>, b: Seq<char>)
    ensures
        lex_le(a, b) || lex_le(b, a),
    decreases a.len(),
{
    if a.len() == 0 {
    } else if b.len() == 0 {
    } else if a[0] == b[0] {
        lemma_lex_le_total(a.drop_first(), b.drop_first());
    } else {
        assert(a[0] as u32 != b[0] as u32) by {
            vstd::utf8::char_u32_cast(a[0], a[0] as u32);
            vstd::utf8::char_u32_cast(b[0], b[0] as u32);
        }
    }
}

/// Decide `lex_le` on two string slices.
pub fn str_lex_le(a: &str, b: &str) -> (r: bool)
    ensures
        r == lex_le(a@, b@),
{
    let na = a.unicode_len();
    let nb = b.unicode_len();
    let mut i: usize = 0;
    proof {
        assert(a@.subrange(0, na as int) =~= a@);
        assert(b@.subrange(0, nb as int) =~= b@);
    }
    loop
        invariant
            0 <= i,
            i <= na,
            i <= nb,
            na == a@.len(),
            nb == b@.len(),
            forall|j: int| 0 <= j < i ==> a@[j] == b@[j],
            lex_le(a@, b@) == lex_le(
                a@.subrange(i as int, na as int),
                b@.subrange(i as int, nb as int),
            ),
        decreases na - i,
    {
        if i >= na {
            assert(a@.subrange(i as int, na as int).len() == 0);
            return true;
        }
        if i >= nb {
            assert(b@.subrange(i as int, nb as int).len() == 0);
            assert(a@.subrange(i as int, na as int).len() > 0);
            return false;
        }
        let ca = a.get_char(i);
        let cb = b.get_char(i);
        let ghost sa = a@.subrange(i as int, na as int);
        let ghost sb = b@.subrange(i as int, nb as int);
        assert(sa.len() > 0 && sb.len() > 0 && sa[0] == a@[i as int] && sb[0] == b@[i as int]);
        if ca != cb {
            return (ca as u32) < (cb as u32);
        }
        proof {
            assert(sa.drop_first() =~= a@.subrange(i + 1 as int, na as int));
            assert(sb.drop_first() =~= b@.subrange(i + 1 as int, nb as int));
        }
        i = i + 1;
    }
}

/// Decide view equality of two string slices.
pub fn str_eq(a: &str, b: &str) -> (r: bool)
    ensures
        r == (a@ == b@),
{
    let na = a.unicode_len();
    let nb = b.unicode_len();
    if na != nb {
        return false;
    }
    let mut i: usize = 0;
    while i < na
        invariant
            0 <= i <= na,
            na == a@.len(),
            na == b@.len(),
            forall|j: int| 0 <= j < i ==> a@[j] == b@[j],
        decreases na - i,
    {
        if a.get_char(i) != b.get_char(i) {
            return false;
        }
        i = i + 1;
    }
    proof {
        assert(a@ =~= b@);
    }
    true
}

/// `lex_le` is reflexive.
pub proof fn lemma_lex_le_refl(a: Seq<char>)
    ensures
        lex_le(a, a),
    decreases a.len(),
{
    if a.len() > 0 {
        lemma_lex_le_refl(a.drop_first());
    }
}

/// `lex_le` both ways means equality.
pub proof fn lemma_lex_le_antisym(a: Seq<char>, b: Seq<char>)
    requires
        lex_le(a, b),
        lex_le(b, a),
    ensures
        a == b,
    decreases a.len(),
{
    if a.len() == 0 {
        assert(b.len() == 0);
        assert(a =~= b);
    } else {
        assert(b.len() > 0);
        if a[0] == b[0] {
            lemma_lex_le_antisym(a.drop_first(), b.drop_first());
            assert forall|i: int| 0 <= i < a.len() implies a[i] == b[i] by {
                if i > 0 {
                    assert(a.drop_first()[i - 1] == a[i]);
                    assert(b.drop_first()[i - 1] == b[i]);
                }
            }
            assert(a =~= b);
        } else {
            vstd::utf8::char_u32_cast(a[0], a[0] as u32);
            vstd::utf8::char_u32_cast(b[0], b[0] as u32);
            assert((a[0] as u32) < (b[0] as u32) && (b[0] as u32) < (a[0] as u32));
        }
    }
}

/// `lex_le` is transitive.
pub proof fn lemma_lex_le_trans(a: Seq<char>, b: Seq<char>, c: Seq<char>)
    requires
        lex_le(a, b),
        lex_le(b, c),
    ensures
        lex_le(a, c),
    decreases a.len(),
{
    if a.len() == 0 {
    } else if b.len() == 0 {
    } else if c.len() == 0 {
    } else {
        vstd::utf8::char_u32_cast(a[0], a[0] as u32);
        vstd::utf8::char_u32_cast(b[0], b[0] as u32);
        vstd::utf8::char_u32_cast(c[0], c[0] as u32);
        if a[0] == b[0] && b[0] == c[0] {
            lemma_lex_le_trans(a.drop_first(), b.drop_first(), c.drop_first());
        } else if a[0] == b[0] {
            assert((b[0] as u32) < (c[0] as u32));
        } else if b[0] == c[0] {
            assert((a[0] as u32) < (b[0] as u32));
        } else {
            assert((a[0] as u32) < (b[0] as u32));
            assert((b[0] as u32) < (c[0] as u32));
            assert(a[0] as u32 != c[0] as u32);
        }
    }
}

} // verus!
