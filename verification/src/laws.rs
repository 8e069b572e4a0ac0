//! The laws the engine obeys, stated over the model and proved once
//! and for all.

use vstd::prelude::*;

use crate::model::lemma_subst_map_untouched;
use crate::model::occurs;
use crate::model::subst_map;
use crate::vars::VarMap;

verus! {

/// Substituting an empty mapping leaves every template unchanged.
pub proof fn lemma_substitute_empty_mapping(t: Seq<char>, m: Map<Seq<char>, Seq<char>>)
    requires
        m == Map::<Seq<char>, Seq<char>>::empty(),
    ensures
        subst_map(t, m) == t,
{
    lemma_subst_map_untouched(t, m);
}

/// A template in which no placeholder of a mapped name occurs is left
/// unchanged by substitution.
pub proof fn lemma_substitute_no_placeholders(t: Seq<char>, m: Map<Seq<char>, Seq<char>>)
    requires
        forall|k: Seq<char>| m.contains_key(k) ==> !occurs(t, k),
    ensures
        subst_map(t, m) == t,
{
    lemma_subst_map_untouched(t, m);
}

/// The iteration order of the mapping is irrelevant: two well-formed
/// mappings holding the same entries, in whatever order, are the same
/// mapping in the model, and substitute identically into every
/// template.
pub proof fn lemma_substitute_order_independent(t: Seq<char>, m1: VarMap, m2: VarMap)
    requires
        m1.wf(),
        m2.wf(),
        m1.pairs().to_multiset() == m2.pairs().to_multiset(),
    ensures
        m1@ == m2@,
        subst_map(t, m1@) == subst_map(t, m2@),
{
    broadcast use vstd::seq_lib::group_to_multiset_ensures;

    m1.lemma_view_pairs();
    m2.lemma_view_pairs();
    assert forall|k: Seq<char>| #[trigger]
        m1@.contains_key(k) implies m2@.contains_key(k) && m2@[k] == m1@[k] by {
        let i = choose|i: int| 0 <= i < m1.pairs().len() && m1.pairs()[i] == (k, m1@[k]);
        assert(m1.pairs().contains((k, m1@[k])));
        assert(m1.pairs().to_multiset().count((k, m1@[k])) > 0);
        assert(m2.pairs().to_multiset().count((k, m1@[k])) > 0);
        assert(m2.pairs().contains((k, m1@[k])));
        let j = choose|j: int| 0 <= j < m2.pairs().len() && m2.pairs()[j] == (k, m1@[k]);
        assert(m2@.contains_key((#[trigger] m2.pairs()[j]).0));
    }
    assert forall|k: Seq<char>| #[trigger]
        m2@.contains_key(k) implies m1@.contains_key(k) by {
        let i = choose|i: int| 0 <= i < m2.pairs().len() && m2.pairs()[i] == (k, m2@[k]);
        assert(m2.pairs().contains((k, m2@[k])));
        assert(m2.pairs().to_multiset().count((k, m2@[k])) > 0);
        assert(m1.pairs().to_multiset().count((k, m2@[k])) > 0);
        assert(m1.pairs().contains((k, m2@[k])));
        let j = choose|j: int| 0 <= j < m1.pairs().len() && m1.pairs()[j] == (k, m2@[k]);
        assert(m1@.contains_key((#[trigger] m1.pairs()[j]).0));
    }
    assert(m1@ =~= m2@);
}

} // verus!
