//! Counting facts about sequences of indices and ids.
use vstd::prelude::*;
use vstd::set_lib::{lemma_int_range, lemma_len_subset, set_int_range};

verus! {

broadcast use vstd::seq_lib::group_seq_properties, vstd::set::group_set_axioms;

/// A sequence in which every index below `n` occurs has at least `n` elements.
pub proof fn lemma_covering_len(s: Seq<usize>, n: nat)
    requires
        n <= usize::MAX,
        forall|k: usize| 0 <= k < n ==> #[trigger] s.contains(k),
    ensures
        s.len() >= n,
{
    let t = s.map_values(|x: usize| x as int);
    assert forall|k: int| set_int_range(0, n as int).contains(k) implies t.to_set().contains(k) by {
        let ku = k as usize;
        assert(s.contains(ku));
        let i = choose|i: int| 0 <= i < s.len() && s[i] == ku;
        assert(t.len() == s.len());
        assert(t[i] == s[i] as int);
        assert(t.contains(k));
    }
    lemma_int_range(0, n as int);
    vstd::seq_lib::seq_to_set_is_finite(t);
    lemma_len_subset(set_int_range(0, n as int), t.to_set());
    t.lemma_cardinality_of_set();
}

/// A sequence of distinct ids, each below `n`, has at most `n` elements.
pub proof fn lemma_distinct_below_len(s: Seq<u64>, n: nat)
    requires
        s.no_duplicates(),
        forall|i: int| 0 <= i < s.len() ==> s[i] < n,
    ensures
        s.len() <= n,
{
    let t = s.map_values(|x: u64| x as int);
    assert(t.no_duplicates()) by {
        assert forall|i: int, j: int| 0 <= i < t.len() && 0 <= j < t.len() && i != j implies t[i]
            != t[j] by {
            assert(t[i] == s[i] as int);
            assert(t[j] == s[j] as int);
            assert(s[i] != s[j]);
        }
    }
    t.unique_seq_to_set();
    assert forall|k: int| t.to_set().contains(k) implies set_int_range(0, n as int).contains(k) by {
        assert(t.contains(k));
        let i = choose|i: int| 0 <= i < t.len() && t[i] == k;
        assert(t[i] == s[i] as int);
        assert(s[i] < n);
    }
    lemma_int_range(0, n as int);
    lemma_len_subset(t.to_set(), set_int_range(0, n as int));
}

} // verus!
