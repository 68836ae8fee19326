//! Visit orders: the sequence of record indices that a workload walks.
//!
//! A visit order over `n` records is a sequence of length `n` that holds
//! every index in `0..n` exactly once. The sequential workloads walk the
//! identity order; the random-read workload walks a shuffled one.

use vstd::prelude::*;

verus! {

/// The identity order `0, 1, .., n - 1`.
pub open spec fn identity_order(n: nat) -> Seq<i64> {
    Seq::new(n, |i: int| i as i64)
}

/// `s` holds only indices below its own length, and none of them twice.
pub open spec fn is_visit_order(s: Seq<i64>) -> bool {
    &&& s.no_duplicates()
    &&& forall|i: int| 0 <= i < s.len() ==> 0 <= #[trigger] s[i] < s.len()
}

/// How often the index `v` occurs in `s`.
pub open spec fn occurrences(s: Seq<i64>, v: i64) -> nat {
    s.to_multiset().count(v)
}

/// `s` has length `n` and holds every index below `n` exactly once.
pub open spec fn visits_each_once(s: Seq<i64>, n: nat) -> bool {
    &&& s.len() == n
    &&& forall|v: i64| 0 <= v < n ==> #[trigger] occurrences(s, v) == 1
    &&& forall|v: i64| !(0 <= v < n) ==> #[trigger] occurrences(s, v) == 0
}

/// The identity order holds every index exactly once.
pub proof fn lemma_identity_visits_each_once(n: nat)
    requires
        n <= i64::MAX,
    ensures
        visits_each_once(identity_order(n), n),
        is_visit_order(identity_order(n)),
{
    let s = identity_order(n);
    assert(s.no_duplicates());
    s.lemma_multiset_has_no_duplicates();
    s.to_multiset_ensures();
    assert forall|v: i64| 0 <= v < n implies #[trigger] occurrences(s, v) == 1 by {
        assert(s[v as int] == v);
        assert(s.contains(v));
    }
    assert forall|v: i64| !(0 <= v < n) implies #[trigger] occurrences(s, v) == 0 by {
        if s.contains(v) {
            let i = choose|i: int| 0 <= i < s.len() && s[i] == v;
            assert(s[i] == i);
        }
    }
}

/// Two sequences with the same elements, counted with multiplicity, visit
/// the same indices equally often.
pub proof fn lemma_rearrangement_visits_each_once(s: Seq<i64>, t: Seq<i64>, n: nat)
    requires
        visits_each_once(s, n),
        t.to_multiset() == s.to_multiset(),
    ensures
        visits_each_once(t, n),
{
    s.to_multiset_ensures();
    t.to_multiset_ensures();
    assert forall|v: i64| 0 <= v < n implies #[trigger] occurrences(t, v) == 1 by {
        assert(occurrences(s, v) == 1);
    }
    assert forall|v: i64| !(0 <= v < n) implies #[trigger] occurrences(t, v) == 0 by {
        assert(occurrences(s, v) == 0);
    }
}

/// A sequence that holds every index below its length exactly once holds no
/// index twice and none out of range.
pub proof fn lemma_each_once_is_visit_order(s: Seq<i64>)
    requires
        visits_each_once(s, s.len()),
    ensures
        is_visit_order(s),
{
    s.to_multiset_ensures();
    assert forall|x: i64| s.to_multiset().contains(x) implies s.to_multiset().count(x) == 1 by {
        if !(0 <= x < s.len()) {
            assert(occurrences(s, x) == 0);
        } else {
            assert(occurrences(s, x) == 1);
        }
    }
    s.lemma_multiset_has_no_duplicates_conv();
    assert forall|i: int| 0 <= i < s.len() implies 0 <= #[trigger] s[i] < s.len() by {
        assert(s.contains(s[i]));
        if !(0 <= s[i] < s.len()) {
            assert(occurrences(s, s[i]) == 0);
        }
    }
}

/// A sequence that holds only indices below its length, and none twice,
/// holds each of them: there are as many places as indices.
pub proof fn lemma_visit_order_visits_each_once(s: Seq<i64>)
    requires
        is_visit_order(s),
    ensures
        visits_each_once(s, s.len()),
{
    let n = s.len();
    let t = s.map_values(|x: i64| x as int);
    assert(t.no_duplicates()) by {
        assert forall|i: int, j: int| 0 <= i < t.len() && 0 <= j < t.len() && i != j implies t[i]
            != t[j] by {
            assert(s[i] != s[j]);
        }
    }
    t.unique_seq_to_set();
    vstd::set_lib::lemma_int_range(0, n as int);
    let range = vstd::set_lib::set_int_range(0, n as int);
    assert(t.to_set().subset_of(range)) by {
        assert forall|v: int| t.to_set().contains(v) implies range.contains(v) by {
            let i = choose|i: int| 0 <= i < t.len() && t[i] == v;
            assert(0 <= s[i] < n);
        }
    }
    vstd::seq_lib::seq_to_set_is_finite(t);
    vstd::set_lib::lemma_subset_equality(t.to_set(), range);
    s.to_multiset_ensures();
    s.lemma_multiset_has_no_duplicates();
    assert forall|v: i64| 0 <= v < n implies #[trigger] occurrences(s, v) == 1 by {
        assert(range.contains(v as int));
        assert(t.to_set().contains(v as int));
        let i = choose|i: int| 0 <= i < t.len() && t[i] == v as int;
        assert(s[i] == v);
        assert(s.contains(v));
    }
    assert forall|v: i64| !(0 <= v < n) implies #[trigger] occurrences(s, v) == 0 by {
        if s.contains(v) {
            let i = choose|i: int| 0 <= i < s.len() && s[i] == v;
            assert(0 <= s[i] < n);
        }
    }
}

/// Builds the identity order over `n` records.
pub fn sequential_order(n: u32) -> (order: Vec<i64>)
    ensures
        order@ == identity_order(n as nat),
{
    let mut order: Vec<i64> = Vec::new();
    let mut i: u32 = 0;
    while i < n
        invariant
            i <= n,
            order@ == identity_order(i as nat),
        decreases n - i,
    {
        order.push(i as i64);
        i = i + 1;
    }
    order
}

/// Tells whether `order` is a visit order over its own length.
pub fn check_visit_order(order: &Vec<i64>) -> (ok: bool)
    ensures
        ok == is_visit_order(order@),
{
    let n = order.len();
    let mut seen: Vec<bool> = Vec::new();
    let mut k: usize = 0;
    while k < n
        invariant
            k <= n,
            seen.len() == k,
            forall|v: int| 0 <= v < k ==> !seen[v],
        decreases n - k,
    {
        seen.push(false);
        k = k + 1;
    }
    let mut i: usize = 0;
    while i < n
        invariant
            i <= n,
            n == order.len(),
            seen.len() == n,
            forall|j: int| 0 <= j < i ==> 0 <= #[trigger] order[j] < n,
            forall|j: int, l: int| 0 <= j < l < i ==> order[j] != order[l],
            forall|v: int|
                0 <= v < n ==> (#[trigger] seen[v] <==> exists|j: int|
                    0 <= j < i && order[j] == v),
        decreases n - i,
    {
        let v = order[i];
        if v < 0 || v as u64 >= n as u64 {
            assert(!(0 <= order@[i as int] < order@.len()));
            return false;
        }
        let slot = v as usize;
        if seen[slot] {
            proof {
                let j = choose|j: int| 0 <= j < i && order[j] == slot as int;
                assert(order@[j] == order@[i as int]);
            }
            return false;
        }
        seen.set(slot, true);
        proof {
            assert forall|w: int| 0 <= w < n implies (#[trigger] seen[w] <==> exists|j: int|
                0 <= j < i + 1 && order[j] == w) by {
                if w == slot as int {
                    assert(order[i as int] == w);
                } else {
                    if seen[w] {
                        let j = choose|j: int| 0 <= j < i && order[j] == w;
                        assert(0 <= j < i + 1 && order[j] == w);
                    }
                }
            }
        }
        i = i + 1;
    }
    true
}

} // verus!
