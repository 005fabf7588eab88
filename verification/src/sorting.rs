//! A verified insertion sort over key/payload pairs.
//!
//! Ruin strategies rank jobs by a cost key, and the epsilon estimator sorts
//! neighbor distances into a curve; both share this sort.  The contract
//! pins down sortedness by key and preservation of the pairs as a multiset.

use vstd::prelude::*;

verus! {

/// The payload components of a key/payload sequence.
pub open spec fn payloads(s: Seq<(u64, usize)>) -> Seq<usize> {
    s.map_values(|pr: (u64, usize)| pr.1)
}

/// Two pair sequences that are equal as multisets carry the same payloads
/// as a multiset; in particular the sort preserves the payload multiset.
pub proof fn lemma_payload_multiset(s1: Seq<(u64, usize)>, s2: Seq<(u64, usize)>)
    requires
        s1.to_multiset() == s2.to_multiset(),
    ensures
        payloads(s1).to_multiset() == payloads(s2).to_multiset(),
    decreases s1.len(),
{
    broadcast use vstd::seq_lib::group_to_multiset_ensures;

    vstd::seq_lib::to_multiset_len(s1);
    vstd::seq_lib::to_multiset_len(s2);
    if s1.len() == 0 {
        assert(payloads(s1).len() == 0);
        assert(payloads(s2).len() == 0);
        assert forall|y: usize| payloads(s1).to_multiset().count(y) == payloads(
            s2,
        ).to_multiset().count(y) by {
            assert(!payloads(s1).contains(y));
            assert(!payloads(s2).contains(y));
        }
        assert(payloads(s1).to_multiset() =~= payloads(s2).to_multiset());
    } else {
        let x = s1[0];
        assert(s1.contains(x));
        assert(s2.to_multiset().count(x) > 0);
        assert(s2.contains(x));
        let i = choose|i: int| 0 <= i < s2.len() && s2[i] == x;
        assert(s1.remove(0).to_multiset() =~= s1.to_multiset().remove(x));
        assert(s2.remove(i).to_multiset() =~= s2.to_multiset().remove(x));
        assert(s1.remove(0) =~= s1.drop_first());
        lemma_payload_multiset(s1.drop_first(), s2.remove(i));
        assert(payloads(s1).drop_first() =~= payloads(s1.drop_first()));
        assert(payloads(s2).remove(i) =~= payloads(s2.remove(i)));
        assert(payloads(s1).remove(0) =~= payloads(s1).drop_first());
        assert(payloads(s1).remove(0).to_multiset() =~= payloads(s1).to_multiset().remove(x.1));
        assert(payloads(s2).remove(i).to_multiset() =~= payloads(s2).to_multiset().remove(x.1));
        assert(payloads(s1).to_multiset().count(x.1) >= 1) by {
            assert(payloads(s1)[0] == x.1);
            assert(payloads(s1).contains(x.1));
        }
        assert(payloads(s2).to_multiset().count(x.1) >= 1) by {
            assert(payloads(s2)[i] == x.1);
            assert(payloads(s2).contains(x.1));
        }
        assert forall|y: usize| payloads(s1).to_multiset().count(y) == payloads(
            s2,
        ).to_multiset().count(y) by {
            assert(payloads(s1.drop_first()).to_multiset().count(y) == payloads(
                s2.remove(i),
            ).to_multiset().count(y));
        }
        assert(payloads(s1).to_multiset() =~= payloads(s2).to_multiset());
    }
}

/// Sorted ascending by the `u64` key.
pub open spec fn sorted_by_key(s: Seq<(u64, usize)>) -> bool {
    forall|a: int, b: int| 0 <= a < b < s.len() ==> (#[trigger] s[a]).0 <= (#[trigger] s[b]).0
}

/// Sorts the pairs ascending by key, keeping them as a multiset.
pub fn sort_pairs(v: &mut Vec<(u64, usize)>)
    ensures
        sorted_by_key(final(v)@),
        final(v)@.to_multiset() == old(v)@.to_multiset(),
        final(v)@.len() == old(v)@.len(),
{
    proof {
        broadcast use vstd::seq_lib::group_to_multiset_ensures;
    }
    let n = v.len();
    let mut i: usize = 1;
    while i < n
        invariant
            n == v@.len(),
            1 <= i || n == 0,
            i <= n || n == 0,
            v@.to_multiset() == old(v)@.to_multiset(),
            forall|a: int, b: int|
                0 <= a < b < i ==> (#[trigger] v@[a]).0 <= (#[trigger] v@[b]).0,
        decreases n - i,
    {
        let mut j: usize = i;
        while j > 0 && v[j - 1].0 > v[j].0
            invariant
                n == v@.len(),
                0 <= j <= i < n,
                v@.to_multiset() == old(v)@.to_multiset(),
                forall|a: int, b: int|
                    0 <= a < b <= i && b != j ==> (#[trigger] v@[a]).0 <= (#[trigger] v@[b]).0,
            decreases j,
        {
            let ghost s = v@;
            let x = v[j - 1];
            let y = v[j];
            v.set(j - 1, y);
            v.set(j, x);
            proof {
                crate::model::lemma_swap_multiset(s, j as int - 1, j as int);
                assert(v@ =~= s.update(j as int - 1, s[j as int]).update(j as int, s[j as int - 1]));
            }
            j -= 1;
        }
        i += 1;
    }
    proof {
        vstd::seq_lib::to_multiset_len(final(v)@);
        vstd::seq_lib::to_multiset_len(old(v)@);
    }
}

/// Sorted ascending.
pub open spec fn sorted_u64(s: Seq<u64>) -> bool {
    forall|a: int, b: int| 0 <= a < b < s.len() ==> (#[trigger] s[a]) <= (#[trigger] s[b])
}

/// Sorts the values ascending, keeping them as a multiset.
pub fn sort_u64s(v: &mut Vec<u64>)
    ensures
        sorted_u64(final(v)@),
        final(v)@.to_multiset() == old(v)@.to_multiset(),
        final(v)@.len() == old(v)@.len(),
{
    proof {
        broadcast use vstd::seq_lib::group_to_multiset_ensures;
    }
    let n = v.len();
    let mut i: usize = 1;
    while i < n
        invariant
            n == v@.len(),
            1 <= i || n == 0,
            i <= n || n == 0,
            v@.to_multiset() == old(v)@.to_multiset(),
            forall|a: int, b: int| 0 <= a < b < i ==> (#[trigger] v@[a]) <= (#[trigger] v@[b]),
        decreases n - i,
    {
        let mut j: usize = i;
        while j > 0 && v[j - 1] > v[j]
            invariant
                n == v@.len(),
                0 <= j <= i < n,
                v@.to_multiset() == old(v)@.to_multiset(),
                forall|a: int, b: int|
                    0 <= a < b <= i && b != j ==> (#[trigger] v@[a]) <= (#[trigger] v@[b]),
            decreases j,
        {
            let ghost s = v@;
            let x = v[j - 1];
            let y = v[j];
            v.set(j - 1, y);
            v.set(j, x);
            proof {
                crate::model::lemma_swap_multiset(s, j as int - 1, j as int);
                assert(v@ =~= s.update(j as int - 1, s[j as int]).update(j as int, s[j as int - 1]));
            }
            j -= 1;
        }
        i += 1;
    }
    proof {
        vstd::seq_lib::to_multiset_len(v@);
        vstd::seq_lib::to_multiset_len(old(v)@);
    }
}

} // verus!
