//! Mathematical model of templates, placeholders and substitution.
//!
//! A template is a sequence of characters; a variable mapping is a
//! `Map<Seq<char>, Seq<char>>` from names to values. A placeholder for
//! the name `k` is the character sequence `${k}`. Substitution is
//! modelled as a single left-to-right scan of the template: wherever a
//! placeholder for a mapped name starts, its value is emitted and the
//! scan resumes after the closing brace; every other character is
//! copied. Because the scan consults the mapping only as a map, the
//! model is independent of any iteration order by construction.

use vstd::prelude::*;

verus! {

/// The characters that may not appear in variable names or values.
pub open spec fn forbidden(c: char) -> bool {
    c == '$' || c == '{' || c == '}'
}

/// A text is clean when it contains no forbidden character.
pub open spec fn clean(s: Seq<char>) -> bool {
    forall|i: int| 0 <= i < s.len() ==> !forbidden(s[i])
}

/// Every name in the mapping is clean.
pub open spec fn keys_clean(m: Map<Seq<char>, Seq<char>>) -> bool {
    forall|k: Seq<char>| m.contains_key(k) ==> clean(k)
}

/// Every name and every value in the mapping is clean.
pub open spec fn map_valid(m: Map<Seq<char>, Seq<char>>) -> bool {
    forall|k: Seq<char>| #[trigger] m.contains_key(k) ==> clean(k) && clean(m[k])
}

/// The placeholder token `${k}` for the name `k`.
pub open spec fn placeholder(k: Seq<char>) -> Seq<char> {
    Seq::new(
        k.len() + 3,
        |i: int|
            if i == 0 {
                '$'
            } else if i == 1 {
                '{'
            } else if i <= k.len() + 1 {
                k[i - 2]
            } else {
                '}'
            },
    )
}

/// The pattern `pat` occurs in `t` starting at position `i`.
pub open spec fn match_at(t: Seq<char>, pat: Seq<char>, i: int) -> bool {
    &&& 0 <= i
    &&& i + pat.len() <= t.len()
    &&& forall|j: int| 0 <= j < pat.len() ==> t[i + j] == pat[j]
}

/// The placeholder of some name of `m` occurs somewhere in `t`.
pub open spec fn occurs(t: Seq<char>, k: Seq<char>) -> bool {
    exists|i: int| match_at(t, placeholder(k), i)
}

/// A placeholder for the mapped name `k` starts at the head of `t`.
pub open spec fn head_match(t: Seq<char>, m: Map<Seq<char>, Seq<char>>, k: Seq<char>) -> bool {
    m.contains_key(k) && match_at(t, placeholder(k), 0)
}

/// The result of substituting `m` into `t`: a left-to-right scan that
/// rewrites each placeholder of a mapped name to that name's value and
/// copies every other character unchanged.
pub open spec fn subst_map(t: Seq<char>, m: Map<Seq<char>, Seq<char>>) -> Seq<char>
    decreases t.len(),
{
    if t.len() == 0 {
        t
    } else if exists|k: Seq<char>| head_match(t, m, k) {
        let k = choose|k: Seq<char>| head_match(t, m, k);
        m[k] + subst_map(t.skip(k.len() as int + 3), m)
    } else {
        t.take(1) + subst_map(t.skip(1), m)
    }
}

/// The weak placeholder heuristic: `t` contains `${` at some position
/// strictly before a `}`; equivalently, scanning from the left, an
/// occurrence of `${` is found before any `}`, and some `}` follows it.
pub open spec fn is_templated_spec(t: Seq<char>) -> bool
    decreases t.len(),
{
    if t.len() < 2 {
        false
    } else if t[0] == '$' && t[1] == '{' {
        t.skip(2).contains('}')
    } else if t[0] == '}' {
        false
    } else {
        is_templated_spec(t.skip(1))
    }
}

/// The forbidden character that validation reports for an unclean
/// text: `$` is looked for first, then `{`, then `}`.
pub open spec fn first_forbidden(s: Seq<char>) -> char {
    if s.contains('$') {
        '$'
    } else if s.contains('{') {
        '{'
    } else {
        '}'
    }
}

/// The message carried by a validation error: it names the role of the
/// offending text (`key` or `value`), the text itself, and the
/// forbidden character found in it.
pub open spec fn error_message(kind: Seq<char>, text: Seq<char>, c: char) -> Seq<char> {
    "variable "@ + kind + " '"@ + text + "' contains forbidden character '"@ + seq![c] + "'"@
}

/// Occurrences in a suffix of `t` are occurrences in `t`, shifted.
pub proof fn lemma_match_skip(t: Seq<char>, pat: Seq<char>, s: int, i: int)
    requires
        0 <= s <= t.len(),
        0 <= i,
    ensures
        match_at(t.skip(s), pat, i) == match_at(t, pat, s + i),
{
    if match_at(t.skip(s), pat, i) {
        assert forall|j: int| 0 <= j < pat.len() implies t[s + i + j] == pat[j] by {
            assert(t.skip(s)[i + j] == pat[j]);
        }
    }
    if match_at(t, pat, s + i) {
        assert forall|j: int| 0 <= j < pat.len() implies t.skip(s)[i + j] == pat[j] by {
            assert(t[s + i + j] == pat[j]);
        }
    }
}

/// Pointwise consequence of a match: each pattern character is found
/// in the text at its shifted position.
pub proof fn lemma_match_at_index(t: Seq<char>, pat: Seq<char>, i: int, j: int)
    requires
        match_at(t, pat, i),
        0 <= j < pat.len(),
    ensures
        t[i + j] == pat[j],
{
}

/// At most one mapped name can have its placeholder at the head of a
/// text: names are clean, so the first `}` pins the name down.
pub proof fn lemma_head_match_unique(
    t: Seq<char>,
    m: Map<Seq<char>, Seq<char>>,
    k1: Seq<char>,
    k2: Seq<char>,
)
    requires
        keys_clean(m),
        head_match(t, m, k1),
        head_match(t, m, k2),
    ensures
        k1 == k2,
{
    let n1 = k1.len() as int;
    let n2 = k2.len() as int;
    if n1 < n2 {
        lemma_match_at_index(t, placeholder(k1), 0, n1 + 2);
        lemma_match_at_index(t, placeholder(k2), 0, n1 + 2);
        assert(placeholder(k1)[n1 + 2] == '}');
        assert(placeholder(k2)[n1 + 2] == k2[n1]);
        assert(forbidden(k2[n1]));
        assert(clean(k2));
        assert(!forbidden(k2[n1]));
        assert(false);
    }
    if n2 < n1 {
        lemma_match_at_index(t, placeholder(k2), 0, n2 + 2);
        lemma_match_at_index(t, placeholder(k1), 0, n2 + 2);
        assert(placeholder(k2)[n2 + 2] == '}');
        assert(placeholder(k1)[n2 + 2] == k1[n2]);
        assert(forbidden(k1[n2]));
        assert(clean(k1));
        assert(!forbidden(k1[n2]));
        assert(false);
    }
    assert forall|i: int| 0 <= i < n1 implies k1[i] == k2[i] by {
        lemma_match_at_index(t, placeholder(k1), 0, i + 2);
        lemma_match_at_index(t, placeholder(k2), 0, i + 2);
        assert(placeholder(k1)[i + 2] == k1[i]);
        assert(placeholder(k2)[i + 2] == k2[i]);
    }
    assert(k1 =~= k2);
}

/// Unfolding of `subst_map` at a head placeholder for the name `k`.
pub proof fn lemma_subst_map_match(t: Seq<char>, m: Map<Seq<char>, Seq<char>>, k: Seq<char>)
    requires
        keys_clean(m),
        head_match(t, m, k),
    ensures
        subst_map(t, m) == m[k] + subst_map(t.skip(k.len() as int + 3), m),
{
    assert(t.len() >= k.len() + 3);
    assert(exists|k2: Seq<char>| head_match(t, m, k2));
    let k2 = choose|k2: Seq<char>| head_match(t, m, k2);
    lemma_head_match_unique(t, m, k, k2);
}

/// Unfolding of `subst_map` at a position where no placeholder of a
/// mapped name starts: the head character is copied.
pub proof fn lemma_subst_map_no_match(t: Seq<char>, m: Map<Seq<char>, Seq<char>>)
    requires
        t.len() > 0,
        forall|k: Seq<char>| !head_match(t, m, k),
    ensures
        subst_map(t, m) == t.take(1) + subst_map(t.skip(1), m),
{
}

/// A template in which no placeholder of a mapped name occurs is left
/// unchanged by substitution.
pub proof fn lemma_subst_map_untouched(t: Seq<char>, m: Map<Seq<char>, Seq<char>>)
    requires
        forall|k: Seq<char>| m.contains_key(k) ==> !occurs(t, k),
    ensures
        subst_map(t, m) == t,
    decreases t.len(),
{
    if t.len() == 0 {
    } else {
        assert forall|k: Seq<char>| !head_match(t, m, k) by {
            if m.contains_key(k) && match_at(t, placeholder(k), 0) {
                assert(occurs(t, k));
            }
        }
        lemma_subst_map_no_match(t, m);
        assert forall|k: Seq<char>| m.contains_key(k) implies !occurs(t.skip(1), k) by {
            if occurs(t.skip(1), k) {
                let i = choose|i: int| match_at(t.skip(1), placeholder(k), i);
                lemma_match_skip(t, placeholder(k), 1, i);
                assert(match_at(t, placeholder(k), 1 + i));
                assert(occurs(t, k));
            }
        }
        lemma_subst_map_untouched(t.skip(1), m);
        assert(t.take(1) + t.skip(1) =~= t);
    }
}

} // verus!
