//! The placeholder detector.

use vstd::prelude::*;
use vstd::string::StrSliceExecFns;

use crate::engine::find_close;
use crate::model::is_templated_spec;

verus! {

/// Whether the text contains templated variables: an occurrence of
/// `${` strictly before some `}`. This is a weak heuristic by design:
/// it does not check that the brace is the matching one, nor that a
/// valid name lies between. It is false when either part is missing or
/// when the first `}` comes at or before the first `${`.
pub fn is_templated(input: &str) -> (r: bool)
    ensures
        r == is_templated_spec(input@),
{
    let ghost t = input@;
    let n = input.unicode_len();
    let mut i: usize = 0;
    proof {
        assert(t.skip(0) =~= t);
    }
    while i < n
        invariant
            i <= n,
            n == t.len(),
            t == input@,
            is_templated_spec(t) == is_templated_spec(t.skip(i as int)),
        decreases n - i,
    {
        let c = input.get_char(i);
        if c == '$' && i + 1 < n && input.get_char(i + 1) == '{' {
            proof {
                assert(t.skip(i as int)[0] == '$');
                assert(t.skip(i as int)[1] == '{');
                assert(t.skip(i as int).skip(2) =~= t.skip(i + 2));
            }
            match find_close(input, i + 2) {
                Some(j) => {
                    proof {
                        assert(t.skip(i + 2)[j - i - 2] == '}');
                        assert(t.skip(i + 2).contains('}'));
                    }
                    return true;
                },
                None => {
                    proof {
                        if t.skip(i + 2).contains('}') {
                            let q = choose|q: int|
                                0 <= q < t.skip(i + 2).len() && #[trigger] t.skip(i + 2)[q]
                                    == '}';
                            assert(t[i + 2 + q] == '}');
                            assert(false);
                        }
                    }
                    return false;
                },
            }
        } else if c == '}' {
            proof {
                assert(t.skip(i as int)[0] == '}');
            }
            return false;
        }
        proof {
            if i + 1 < n {
                assert(t.skip(i as int)[0] == t[i as int]);
                assert(t.skip(i as int)[1] == t[i + 1]);
                assert(t.skip(i as int).skip(1) =~= t.skip(i + 1));
            } else {
                assert(t.skip(i as int).len() == 1);
                assert(t.skip(i + 1).len() == 0);
            }
        }
        i += 1;
    }
    proof {
        assert(t.skip(i as int).len() == 0);
    }
    false
}

} // verus!
