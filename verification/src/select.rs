//! The weighted strategy selector.
//!
//! Given a list of non-negative weights, picks one index with probability
//! proportional to its weight; an index with weight zero is never picked.

use vstd::prelude::*;
use crate::rng::Rng;

verus! {

/// Sum of a sequence of weights.
pub open spec fn sum_weights(ws: Seq<u64>) -> int
    decreases ws.len(),
{
    if ws.len() == 0 {
        0
    } else {
        ws[0] + sum_weights(ws.drop_first())
    }
}

/// A prefix sum never exceeds the whole sum, and sums are non-negative.
pub proof fn lemma_sum_weights_prefix(ws: Seq<u64>, k: int)
    requires
        0 <= k <= ws.len(),
    ensures
        0 <= sum_weights(ws.take(k)) <= sum_weights(ws),
    decreases ws.len(),
{
    if ws.len() == 0 {
        assert(ws.take(k) =~= ws);
    } else if k == 0 {
        assert(ws.take(0) =~= Seq::<u64>::empty());
        lemma_sum_weights_prefix(ws.drop_first(), 0);
    } else {
        assert(ws.take(k).drop_first() =~= ws.drop_first().take(k - 1));
        lemma_sum_weights_prefix(ws.drop_first(), k - 1);
    }
}

/// Extending a prefix by one element adds that element's weight.
pub proof fn lemma_sum_weights_take(ws: Seq<u64>, k: int)
    requires
        0 <= k < ws.len(),
    ensures
        sum_weights(ws.take(k + 1)) == sum_weights(ws.take(k)) + ws[k],
    decreases k,
{
    if k == 0 {
        assert(ws.take(1).drop_first() =~= Seq::<u64>::empty());
        assert(ws.take(0) =~= Seq::<u64>::empty());
    } else {
        assert(ws.take(k + 1).drop_first() =~= ws.drop_first().take(k));
        assert(ws.take(k).drop_first() =~= ws.drop_first().take(k - 1));
        lemma_sum_weights_take(ws.drop_first(), k - 1);
    }
}

/// Picks an index with probability proportional to its weight.  The picked
/// index always carries a positive weight.
pub fn select_weighted(rng: &mut Rng, ws: &Vec<u64>) -> (r: usize)
    requires
        ws@.len() > 0,
        sum_weights(ws@) > 0,
        sum_weights(ws@) <= u64::MAX,
    ensures
        r < ws@.len(),
        ws@[r as int] > 0,
{
    let mut total: u64 = 0;
    let mut k: usize = 0;
    while k < ws.len()
        invariant
            k <= ws@.len(),
            total == sum_weights(ws@.take(k as int)),
            sum_weights(ws@) <= u64::MAX,
        decreases ws@.len() - k,
    {
        proof {
            lemma_sum_weights_take(ws@, k as int);
            lemma_sum_weights_prefix(ws@, k as int + 1);
        }
        total = total + ws[k];
        k += 1;
    }
    proof {
        assert(ws@.take(ws@.len() as int) =~= ws@);
    }
    let x = rng.below_u64(total);
    let mut acc: u64 = 0;
    let mut i: usize = 0;
    while i < ws.len()
        invariant
            i <= ws@.len(),
            acc == sum_weights(ws@.take(i as int)),
            x >= acc,
            x < sum_weights(ws@),
            sum_weights(ws@) <= u64::MAX,
        decreases ws@.len() - i,
    {
        proof {
            lemma_sum_weights_take(ws@, i as int);
            lemma_sum_weights_prefix(ws@, i as int + 1);
        }
        if x < acc + ws[i] {
            return i;
        }
        acc = acc + ws[i];
        i += 1;
    }
    proof {
        assert(ws@.take(ws@.len() as int) =~= ws@);
        assert(false);
    }
    0
}

} // verus!
