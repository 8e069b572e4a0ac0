//! The substitution engine and the validators.

use vstd::prelude::*;
use vstd::string::StrSliceExecFns;
use vstd::string::StringExecFns;

use crate::error::Error;
use crate::model::clean;
use crate::model::error_message;
use crate::model::first_forbidden;
use crate::model::forbidden;
use crate::model::head_match;
use crate::model::keys_clean;
use crate::model::lemma_match_at_index;
use crate::model::lemma_subst_map_match;
use crate::model::lemma_subst_map_no_match;
use crate::model::lemma_subst_map_untouched;
use crate::model::map_valid;
use crate::model::match_at;
use crate::model::placeholder;
use crate::model::subst_map;
use crate::vars::VarMap;

verus! {

/// Whether the character occurs in the text.
fn contains_char(s: &str, c: char) -> (r: bool)
    ensures
        r == s@.contains(c),
{
    let n = s.unicode_len();
    let mut i: usize = 0;
    while i < n
        invariant
            i <= n,
            n == s@.len(),
            forall|j: int| 0 <= j < i ==> s@[j] != c,
        decreases n - i,
    {
        if s.get_char(i) == c {
            proof {
                assert(s@[i as int] == c);
            }
            return true;
        }
        i += 1;
    }
    false
}

/// The position of the first `}` at or after `from`, if any.
pub(crate) fn find_close(s: &str, from: usize) -> (r: Option<usize>)
    requires
        from <= s@.len(),
    ensures
        r matches Some(j) ==> from <= j < s@.len() && s@[j as int] == '}' && (forall|p: int|
            from <= p < j ==> s@[p] != '}'),
        r is None ==> forall|p: int| from <= p < s@.len() ==> s@[p] != '}',
{
    let n = s.unicode_len();
    let mut j: usize = from;
    while j < n
        invariant
            from <= j <= n,
            n == s@.len(),
            forall|p: int| from <= p < j ==> s@[p] != '}',
        decreases n - j,
    {
        if s.get_char(j) == '}' {
            return Some(j);
        }
        j += 1;
    }
    None
}

/// Build the message of a validation error out of the role label, the
/// offending text and the forbidden character (handed over as a text
/// of length one).
fn make_error(kind: &str, text: &str, c: &str) -> (e: Error)
    requires
        c@.len() == 1,
    ensures
        e@ == error_message(kind@, text@, c@[0]),
{
    let mut msg = String::from_str("variable ");
    msg.append(kind);
    msg.append(" '");
    msg.append(text);
    msg.append("' contains forbidden character '");
    msg.append(c);
    msg.append("'");
    proof {
        assert(c@ =~= seq![c@[0]]);
        assert(msg@ =~= error_message(kind@, text@, c@[0]));
    }
    Error::new(msg)
}

/// Check one text against the forbidden character set. `kind` labels
/// the text's role (`key` or `value`) in the error message.
fn validate(value: &str, kind: &str) -> (r: Result<(), Error>)
    ensures
        r is Ok <==> clean(value@),
        r matches Err(e) ==> e@ == error_message(kind@, value@, first_forbidden(value@)),
{
    if contains_char(value, '$') {
        proof {
            reveal_strlit("$");
            assert(!clean(value@)) by {
                if clean(value@) {
                    let i = choose|i: int| 0 <= i < value@.len() && value@[i] == '$';
                    assert(!forbidden(value@[i]));
                }
            }
        }
        Err(make_error(kind, value, "$"))
    } else if contains_char(value, '{') {
        proof {
            reveal_strlit("{");
            assert(!clean(value@)) by {
                if clean(value@) {
                    let i = choose|i: int| 0 <= i < value@.len() && value@[i] == '{';
                    assert(!forbidden(value@[i]));
                }
            }
        }
        Err(make_error(kind, value, "{"))
    } else if contains_char(value, '}') {
        proof {
            reveal_strlit("}");
            assert(!clean(value@)) by {
                if clean(value@) {
                    let i = choose|i: int| 0 <= i < value@.len() && value@[i] == '}';
                    assert(!forbidden(value@[i]));
                }
            }
        }
        Err(make_error(kind, value, "}"))
    } else {
        proof {
            assert forall|i: int| 0 <= i < value@.len() implies !forbidden(value@[i]) by {
                if value@[i] == '$' {
                    assert(value@.contains('$'));
                }
                if value@[i] == '{' {
                    assert(value@.contains('{'));
                }
                if value@[i] == '}' {
                    assert(value@.contains('}'));
                }
            }
        }
        Ok(())
    }
}

/// Check every name and value of the mapping against the forbidden
/// character set.
///
/// Succeeds exactly when no name and no value contains `$`, `{` or
/// `}`; otherwise the error reports one offending entry, a name being
/// reported before the value beside it.
pub fn validate_vars(variables: &VarMap) -> (r: Result<(), Error>)
    requires
        variables.wf(),
    ensures
        r is Ok <==> map_valid(variables@),
        r matches Err(e) ==> exists|i: int|
            0 <= i < variables.pairs().len() && ((!clean((#[trigger] variables.pairs()[i]).0)
                && e@ == error_message(
                "key"@,
                variables.pairs()[i].0,
                first_forbidden(variables.pairs()[i].0),
            )) || (clean(variables.pairs()[i].0) && !clean(variables.pairs()[i].1) && e@
                == error_message(
                "value"@,
                variables.pairs()[i].1,
                first_forbidden(variables.pairs()[i].1),
            ))),
{
    let n = variables.len();
    let mut i: usize = 0;
    while i < n
        invariant
            i <= n,
            n == variables.pairs().len(),
            variables.wf(),
            forall|j: int|
                0 <= j < i ==> clean((#[trigger] variables.pairs()[j]).0) && clean(
                    variables.pairs()[j].1,
                ),
        decreases n - i,
    {
        let k = variables.key_at(i);
        let v = variables.val_at(i);
        match validate(k.as_str(), "key") {
            Err(e) => {
                proof {
                    variables.lemma_view_pairs();
                    assert(variables@.contains_key(variables.pairs()[i as int].0));
                }
                return Err(e);
            },
            Ok(()) => {},
        }
        match validate(v.as_str(), "value") {
            Err(e) => {
                proof {
                    variables.lemma_view_pairs();
                    assert(variables@.contains_key(variables.pairs()[i as int].0));
                    assert(variables@[variables.pairs()[i as int].0]
                        == variables.pairs()[i as int].1);
                }
                return Err(e);
            },
            Ok(()) => {},
        }
        i += 1;
    }
    proof {
        variables.lemma_view_pairs();
        assert forall|k: Seq<char>| #[trigger]
            variables@.contains_key(k) implies clean(k) && clean(variables@[k]) by {
            let j = choose|j: int|
                0 <= j < variables.pairs().len() && variables.pairs()[j] == (
                k,
                variables@[k],
                );
            assert(clean(variables.pairs()[j].0) && clean(variables.pairs()[j].1));
        }
    }
    Ok(())
}

/// No placeholder of a mapped name starts at `i` when the two opening
/// characters are not both there.
proof fn lemma_no_match_plain(t: Seq<char>, m: Map<Seq<char>, Seq<char>>, i: int)
    requires
        0 <= i < t.len(),
        i + 1 >= t.len() || t[i] != '$' || t[i + 1] != '{',
    ensures
        forall|k: Seq<char>| !head_match(t.skip(i), m, k),
{
    assert forall|k: Seq<char>| !head_match(t.skip(i), m, k) by {
        if head_match(t.skip(i), m, k) {
            lemma_match_at_index(t.skip(i), placeholder(k), 0, 0);
            lemma_match_at_index(t.skip(i), placeholder(k), 0, 1);
            assert(placeholder(k)[0] == '$');
            assert(placeholder(k)[1] == '{');
            assert(t.skip(i)[0] == t[i]);
            assert(t.skip(i)[1] == t[i + 1]);
            assert(i + placeholder(k).len() <= t.len());
            assert(false);
        }
    }
}

/// No placeholder of any name starts at `i` when no `}` follows the
/// opening characters.
proof fn lemma_no_match_unclosed(t: Seq<char>, m: Map<Seq<char>, Seq<char>>, i: int)
    requires
        0 <= i,
        i + 2 <= t.len(),
        forall|p: int| i + 2 <= p < t.len() ==> t[p] != '}',
    ensures
        forall|k: Seq<char>| !head_match(t.skip(i), m, k),
{
    assert forall|k: Seq<char>| !head_match(t.skip(i), m, k) by {
        if head_match(t.skip(i), m, k) {
            let e = k.len() as int + 2;
            lemma_match_at_index(t.skip(i), placeholder(k), 0, e);
            assert(placeholder(k)[e] == '}');
            assert(t.skip(i)[e] == t[i + e]);
            assert(i + e < t.len());
            assert(t[i + e] != '}');
            assert(false);
        }
    }
}

/// No placeholder of a mapped name starts at `i` when the text up to
/// the first `}` is not a mapped name: clean names cannot reach past
/// that brace.
proof fn lemma_no_match_unknown(
    t: Seq<char>,
    m: Map<Seq<char>, Seq<char>>,
    i: int,
    j: int,
    cand: Seq<char>,
)
    requires
        map_valid(m),
        0 <= i,
        i + 2 <= j < t.len(),
        t[j] == '}',
        forall|p: int| i + 2 <= p < j ==> t[p] != '}',
        cand == t.subrange(i + 2, j),
        !m.contains_key(cand),
    ensures
        forall|k: Seq<char>| !head_match(t.skip(i), m, k),
{
    assert forall|k: Seq<char>| !head_match(t.skip(i), m, k) by {
        if head_match(t.skip(i), m, k) {
            assert(m.contains_key(k));
            assert(clean(k));
            let e = k.len() as int + 2;
            lemma_match_at_index(t.skip(i), placeholder(k), 0, e);
            assert(placeholder(k)[e] == '}');
            assert(t.skip(i)[e] == t[i + e]);
            assert(t[i + e] == '}');
            assert(i + e < t.len());
            if i + e < j {
                assert(t[i + e] != '}');
                assert(false);
            }
            if i + e > j {
                let d = j - i - 2;
                assert(0 <= d < k.len());
                lemma_match_at_index(t.skip(i), placeholder(k), 0, d + 2);
                assert(placeholder(k)[d + 2] == k[d]);
                assert(t.skip(i)[d + 2] == t[j]);
                assert(forbidden(k[d]));
                assert(!forbidden(k[d]));
                assert(false);
            }
            assert(k.len() == cand.len());
            assert forall|p: int| 0 <= p < k.len() implies k[p] == cand[p] by {
                lemma_match_at_index(t.skip(i), placeholder(k), 0, p + 2);
                assert(placeholder(k)[p + 2] == k[p]);
                assert(t.skip(i)[p + 2] == t[i + 2 + p]);
                assert(cand[p] == t[i + 2 + p]);
            }
            assert(k =~= cand);
            assert(false);
        }
    }
}

/// The placeholder of the mapped name `cand` spans `i ..= j`, so the
/// scan emits its value and resumes after the closing brace.
proof fn lemma_match_step(
    t: Seq<char>,
    m: Map<Seq<char>, Seq<char>>,
    i: int,
    j: int,
    cand: Seq<char>,
)
    requires
        map_valid(m),
        0 <= i,
        i + 2 <= j < t.len(),
        t[i] == '$',
        t[i + 1] == '{',
        t[j] == '}',
        cand == t.subrange(i + 2, j),
        m.contains_key(cand),
    ensures
        subst_map(t.skip(i), m) == m[cand] + subst_map(t.skip(j + 1), m),
{
    let ph = placeholder(cand);
    assert(ph.len() == j - i + 1);
    assert forall|q: int| 0 <= q < ph.len() implies t.skip(i)[q] == ph[q] by {
        assert(t.skip(i)[q] == t[i + q]);
        if q == 0 {
            assert(ph[0] == '$');
        } else if q == 1 {
            assert(ph[1] == '{');
        } else if q <= cand.len() + 1 {
            assert(ph[q] == cand[q - 2]);
            assert(cand[q - 2] == t[i + 2 + (q - 2)]);
        } else {
            assert(ph[q] == '}');
            assert(i + q == j);
        }
    }
    assert(match_at(t.skip(i), ph, 0));
    assert(head_match(t.skip(i), m, cand));
    assert(keys_clean(m));
    lemma_subst_map_match(t.skip(i), m, cand);
    assert(t.skip(i).skip(cand.len() as int + 3) =~= t.skip(j + 1));
}

/// One scan step that found no placeholder copies the character at `i`.
proof fn lemma_copy_step(t: Seq<char>, m: Map<Seq<char>, Seq<char>>, i: int)
    requires
        0 <= i < t.len(),
        forall|k: Seq<char>| !head_match(t.skip(i), m, k),
    ensures
        subst_map(t.skip(i), m) == t.subrange(i, i + 1) + subst_map(t.skip(i + 1), m),
{
    lemma_subst_map_no_match(t.skip(i), m);
    assert(t.skip(i).take(1) =~= t.subrange(i, i + 1));
    assert(t.skip(i).skip(1) =~= t.skip(i + 1));
}

/// The scan over a validated mapping.
fn apply(template: &str, vars: &VarMap) -> (out: String)
    requires
        vars.wf(),
        map_valid(vars@),
    ensures
        out@ == subst_map(template@, vars@),
{
    let ghost t = template@;
    let ghost m = vars@;
    let n = template.unicode_len();
    let mut out = String::new();
    let mut i: usize = 0;
    proof {
        assert(t.skip(0) =~= t);
        assert(out@ + subst_map(t, m) =~= subst_map(t, m));
    }
    while i < n
        invariant
            i <= n,
            n == t.len(),
            t == template@,
            m == vars@,
            vars.wf(),
            map_valid(m),
            out@ + subst_map(t.skip(i as int), m) == subst_map(t, m),
        decreases n - i,
    {
        let c = template.get_char(i);
        if c == '$' && i + 1 < n && template.get_char(i + 1) == '{' {
            match find_close(template, i + 2) {
                Some(j) => {
                    let cand = template.substring_char(i + 2, j);
                    match vars.get(cand) {
                        Some(v) => {
                            proof {
                                lemma_match_step(t, m, i as int, j as int, cand@);
                                assert((out@ + m[cand@]) + subst_map(t.skip(j + 1), m) =~= out@
                                    + (m[cand@] + subst_map(t.skip(j + 1), m)));
                            }
                            out.append(v.as_str());
                            i = j + 1;
                        },
                        None => {
                            proof {
                                lemma_no_match_unknown(t, m, i as int, j as int, cand@);
                                lemma_copy_step(t, m, i as int);
                                assert((out@ + t.subrange(i as int, i + 1)) + subst_map(
                                    t.skip(i + 1),
                                    m,
                                ) =~= out@ + (t.subrange(i as int, i + 1) + subst_map(
                                    t.skip(i + 1),
                                    m,
                                )));
                            }
                            let piece = template.substring_char(i, i + 1);
                            out.append(piece);
                            i = i + 1;
                        },
                    }
                },
                None => {
                    proof {
                        lemma_no_match_unclosed(t, m, i as int);
                        lemma_copy_step(t, m, i as int);
                        assert((out@ + t.subrange(i as int, i + 1)) + subst_map(t.skip(i + 1), m)
                            =~= out@ + (t.subrange(i as int, i + 1) + subst_map(t.skip(i + 1), m)));
                    }
                    let piece = template.substring_char(i, i + 1);
                    out.append(piece);
                    i = i + 1;
                },
            }
        } else {
            proof {
                lemma_no_match_plain(t, m, i as int);
                lemma_copy_step(t, m, i as int);
                assert((out@ + t.subrange(i as int, i + 1)) + subst_map(t.skip(i + 1), m) =~= out@
                    + (t.subrange(i as int, i + 1) + subst_map(t.skip(i + 1), m)));
            }
            let piece = template.substring_char(i, i + 1);
            out.append(piece);
            i = i + 1;
        }
    }
    proof {
        assert(t.skip(n as int).len() == 0);
        assert(out@ + t.skip(n as int) =~= out@);
    }
    out
}

/// Substitute variables into a template string.
///
/// With an empty mapping the template is returned unchanged, and no
/// validation is performed. Otherwise every name and value is checked
/// against the forbidden character set first; a failure aborts the
/// call with that validation error and no output. On success, every
/// placeholder `${name}` of a mapped name is replaced by that name's
/// value in one pass over the template, and the rest is copied.
pub fn substitute(template: &str, variables: &VarMap) -> (r: Result<String, Error>)
    requires
        variables.wf(),
    ensures
        r is Ok <==> map_valid(variables@),
        r matches Ok(out) ==> out@ == subst_map(template@, variables@),
        r matches Err(e) ==> exists|i: int|
            0 <= i < variables.pairs().len() && ((!clean((#[trigger] variables.pairs()[i]).0)
                && e@ == error_message(
                "key"@,
                variables.pairs()[i].0,
                first_forbidden(variables.pairs()[i].0),
            )) || (clean(variables.pairs()[i].0) && !clean(variables.pairs()[i].1) && e@
                == error_message(
                "value"@,
                variables.pairs()[i].1,
                first_forbidden(variables.pairs()[i].1),
            ))),
{
    if variables.len() == 0 {
        proof {
            lemma_subst_map_untouched(template@, variables@);
        }
        return Ok(template.to_owned());
    }
    match validate_vars(variables) {
        Err(e) => Err(e),
        Ok(()) => Ok(apply(template, variables)),
    }
}

} // verus!
