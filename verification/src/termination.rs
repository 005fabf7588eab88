//! The composite termination policy.
//!
//! Any satisfied sub-condition stops the run: a wall-clock budget, a
//! generation budget, or cost-variation convergence — the coefficient of
//! variation (stddev over mean) of the best fitness across the last
//! `sample` generations falling to the configured bound.  An absent
//! sub-condition never stops the run.

use vstd::prelude::*;

verus! {

/// Largest total cost a well-formed candidate can reach; history entries
/// stay below it, which keeps the variance arithmetic exact.
pub const MAX_TOTAL_COST: u64 = 0x400_0000_0000;

/// Longest variation window the policy accepts.
pub const MAX_SAMPLE: usize = 1024;

/// The termination criteria of one run.
pub struct Termination {
    /// Wall-clock budget in milliseconds.
    pub max_time_ms: Option<u64>,
    /// Generation budget.
    pub max_generations: Option<usize>,
    /// Cost-variation convergence: window length and bound in thousandths.
    pub variation: Option<(usize, u32)>,
}

impl Termination {
    pub open spec fn wf(self) -> bool {
        match self.variation {
            Some((sample, cv)) => 1 <= sample <= MAX_SAMPLE && cv <= 1000,
            None => true,
        }
    }
}

/// Sum of a window of best costs.
pub open spec fn sum_hist(h: Seq<u64>) -> int
    decreases h.len(),
{
    if h.len() == 0 {
        0
    } else {
        h[0] + sum_hist(h.drop_first())
    }
}

/// Sum of squares of a window of best costs.
pub open spec fn sumsq_hist(h: Seq<u64>) -> int
    decreases h.len(),
{
    if h.len() == 0 {
        0
    } else {
        h[0] * h[0] + sumsq_hist(h.drop_first())
    }
}

/// The coefficient of variation of the window is at or below `cv`
/// thousandths: `10^6 * (n*sumsq - sum^2) <= cv^2 * sum^2`, the square of
/// `stddev/mean <= cv/1000` cleared of denominators.
pub open spec fn cv_within(h: Seq<u64>, cv: u32) -> bool {
    1000000 * (h.len() * sumsq_hist(h) - sum_hist(h) * sum_hist(h)) <= cv * cv * sum_hist(h)
        * sum_hist(h)
}

/// The full stopping condition.
pub open spec fn should_stop_spec(t: Termination, gen: int, elapsed_ms: u64, h: Seq<u64>) -> bool {
    ||| match t.max_generations {
        Some(g) => gen >= g,
        None => false,
    }
    ||| match t.max_time_ms {
        Some(mt) => elapsed_ms >= mt,
        None => false,
    }
    ||| match t.variation {
        Some((sample, cv)) => h.len() >= sample && cv_within(h.skip(h.len() - sample), cv),
        None => false,
    }
}

/// Bounds of the window sums.
proof fn lemma_hist_bounds(h: Seq<u64>)
    requires
        forall|i: int| 0 <= i < h.len() ==> (#[trigger] h[i]) <= MAX_TOTAL_COST,
    ensures
        0 <= sum_hist(h) <= h.len() * MAX_TOTAL_COST,
        0 <= sumsq_hist(h) <= h.len() * MAX_TOTAL_COST * MAX_TOTAL_COST,
    decreases h.len(),
{
    if h.len() == 0 {
    } else {
        lemma_hist_bounds(h.drop_first());
        assert(h[0] * h[0] <= MAX_TOTAL_COST * MAX_TOTAL_COST) by (nonlinear_arith)
            requires
                0 <= h[0] <= MAX_TOTAL_COST,
        ;
        assert((h.len() - 1) * MAX_TOTAL_COST + MAX_TOTAL_COST == h.len() * MAX_TOTAL_COST) by (
        nonlinear_arith);
        assert((h.len() - 1) * MAX_TOTAL_COST * MAX_TOTAL_COST + MAX_TOTAL_COST * MAX_TOTAL_COST
            == h.len() * MAX_TOTAL_COST * MAX_TOTAL_COST) by (nonlinear_arith);
    }
}

/// Window sum over one more element.
proof fn lemma_hist_take(h: Seq<u64>, k: int)
    requires
        0 <= k < h.len(),
    ensures
        sum_hist(h.take(k + 1)) == sum_hist(h.take(k)) + h[k],
        sumsq_hist(h.take(k + 1)) == sumsq_hist(h.take(k)) + h[k] * h[k],
    decreases k,
{
    if k == 0 {
        assert(h.take(1).drop_first() =~= Seq::<u64>::empty());
        assert(h.take(0) =~= Seq::<u64>::empty());
    } else {
        assert(h.take(k + 1).drop_first() =~= h.drop_first().take(k));
        assert(h.take(k).drop_first() =~= h.drop_first().take(k - 1));
        lemma_hist_take(h.drop_first(), k - 1);
    }
}

impl Termination {
    /// Evaluates the stopping condition for the current generation count,
    /// elapsed wall-clock time and best-fitness history.
    pub fn should_stop(&self, generation: usize, elapsed_ms: u64, history: &Vec<u64>) -> (r: bool)
        requires
            self.wf(),
            forall|i: int| 0 <= i < history@.len() ==> (#[trigger] history@[i]) <= MAX_TOTAL_COST,
        ensures
            r == should_stop_spec(*self, generation as int, elapsed_ms, history@),
    {
        match self.max_generations {
            Some(g) => {
                if generation >= g {
                    return true;
                }
            },
            None => {},
        }
        match self.max_time_ms {
            Some(mt) => {
                if elapsed_ms >= mt {
                    return true;
                }
            },
            None => {},
        }
        match self.variation {
            Some((sample, cv)) => {
                if history.len() >= sample {
                    let hlen = history.len();
                    let start = hlen - sample;
                    let ghost w = history@.skip(start as int);
                    // fold the window sums
                    let mut s: u64 = 0;
                    let mut q: u128 = 0;
                    let mut k: usize = 0;
                    while k < sample
                        invariant
                            k <= sample,
                            1 <= sample <= MAX_SAMPLE,
                            hlen == history@.len(),
                            start + sample == hlen,
                            w == history@.skip(start as int),
                            forall|i: int|
                                0 <= i < history@.len() ==> (#[trigger] history@[i])
                                    <= MAX_TOTAL_COST,
                            s == sum_hist(w.take(k as int)),
                            q == sumsq_hist(w.take(k as int)),
                            s <= k * MAX_TOTAL_COST,
                            q <= k * MAX_TOTAL_COST * MAX_TOTAL_COST,
                        decreases sample - k,
                    {
                        proof {
                            lemma_hist_take(w, k as int);
                            assert(w[k as int] == history@[start + k]);
                            assert(history@[start + k] <= MAX_TOTAL_COST);
                            assert((k + 1) * MAX_TOTAL_COST == k * MAX_TOTAL_COST + MAX_TOTAL_COST)
                                by (nonlinear_arith);
                            assert((k + 1) * MAX_TOTAL_COST * MAX_TOTAL_COST == k * MAX_TOTAL_COST
                                * MAX_TOTAL_COST + MAX_TOTAL_COST * MAX_TOTAL_COST) by (
                            nonlinear_arith);
                            assert(k * MAX_TOTAL_COST <= MAX_SAMPLE * MAX_TOTAL_COST) by (
                            nonlinear_arith)
                                requires
                                    0 <= k <= MAX_SAMPLE,
                            ;
                            assert(k * MAX_TOTAL_COST * MAX_TOTAL_COST <= MAX_SAMPLE
                                * MAX_TOTAL_COST * MAX_TOTAL_COST) by (nonlinear_arith)
                                requires
                                    0 <= k <= MAX_SAMPLE,
                            ;
                            let x = history@[start + k] as int;
                            assert(x * x <= MAX_TOTAL_COST * MAX_TOTAL_COST) by (nonlinear_arith)
                                requires
                                    0 <= x <= MAX_TOTAL_COST,
                            ;
                        }
                        let x = history[start + k];
                        s = s + x;
                        q = q + (x as u128) * (x as u128);
                        k += 1;
                    }
                    proof {
                        assert(w.take(sample as int) =~= w);
                        lemma_hist_bounds(w);
                        assert(forall|i: int|
                            0 <= i < w.len() ==> (#[trigger] w[i]) <= MAX_TOTAL_COST);
                        assert(w.len() == sample);
                    }
                    // exact comparison of 10^6 * variance * n^2 with
                    // (cv * mean * n)^2, all over the integers
                    let n = sample as u128;
                    proof {
                        assert((s as int) * (s as int) < 0x8000_0000_0000_0000_0000_0000_0000_0000int
                            && (sample as int) * (q as int)
                            < 0x8000_0000_0000_0000_0000_0000_0000_0000int && 1000000 * ((
                        sample as int) * (q as int)) < 0x8000_0000_0000_0000_0000_0000_0000_0000int
                            && 1000000 * ((s as int) * (s as int))
                            < 0x8000_0000_0000_0000_0000_0000_0000_0000int) by (nonlinear_arith)
                            requires
                                0 <= s as int <= (sample as int) * 0x400_0000_0000,
                                0 <= q as int <= (sample as int) * 0x400_0000_0000
                                    * 0x400_0000_0000,
                                0 <= sample as int <= 1024,
                        ;
                    }
                    let s2: u128 = (s as u128) * (s as u128);
                    let nq: u128 = n * q;
                    proof {
                        assert(-0x8000_0000_0000_0000_0000_0000_0000_0000int < 1000000 * ((
                        nq as int) - (s2 as int)) < 0x8000_0000_0000_0000_0000_0000_0000_0000int)
                            by (nonlinear_arith)
                            requires
                                0 <= nq as int,
                                0 <= s2 as int,
                                1000000 * (nq as int)
                                    < 0x8000_0000_0000_0000_0000_0000_0000_0000int,
                                1000000 * (s2 as int)
                                    < 0x8000_0000_0000_0000_0000_0000_0000_0000int,
                        ;
                        assert((cv as int) * (cv as int) * (s2 as int) <= 1000000 * (s2 as int))
                            by (nonlinear_arith)
                            requires
                                0 <= cv <= 1000,
                                0 <= s2 as int,
                        ;
                    }
                    let lhs_inner: i128 = nq as i128 - s2 as i128;
                    let lhs: i128 = 1000000 * lhs_inner;
                    proof {
                        assert((cv as int) * (cv as int) <= 1000000) by (nonlinear_arith)
                            requires
                                0 <= cv <= 1000,
                        ;
                    }
                    let cv2: u128 = (cv as u128) * (cv as u128);
                    proof {
                        assert(cv2 * s2 == (cv as int) * (cv as int) * (s2 as int)) by (
                        nonlinear_arith)
                            requires
                                cv2 == (cv as int) * (cv as int),
                                0 <= cv <= 1000,
                                0 <= s2 as int,
                                (cv as int) * (cv as int) * (s2 as int) <= 1000000 * (s2 as int),
                                1000000 * (s2 as int)
                                    < 0x8000_0000_0000_0000_0000_0000_0000_0000int,
                        ;
                    }
                    let rhs: i128 = (cv2 * s2) as i128;
                    proof {
                        assert(w.len() == sample);
                        assert(lhs as int == 1000000 * (w.len() * sumsq_hist(w) - sum_hist(w)
                            * sum_hist(w)));
                        assert(rhs as int == (cv as int) * (cv as int) * (sum_hist(w) as int)
                            * (sum_hist(w) as int)) by (nonlinear_arith)
                            requires
                                rhs as int == ((cv as int) * (cv as int)) * ((sum_hist(w) as int)
                                    * (sum_hist(w) as int)),
                        ;
                    }
                    if lhs <= rhs {
                        return true;
                    }

                }
            },
            None => {},
        }
        false
    }
}

/// Constant windows have zero variance.
proof fn lemma_const_window(h: Seq<u64>, v: u64)
    requires
        forall|i: int| 0 <= i < h.len() ==> (#[trigger] h[i]) == v,
    ensures
        sum_hist(h) == h.len() * v,
        sumsq_hist(h) == h.len() * (v * v),
    decreases h.len(),
{
    if h.len() == 0 {
    } else {
        lemma_const_window(h.drop_first(), v);
        assert((h.len() - 1) * v + v == h.len() * v) by (nonlinear_arith);
        assert((h.len() - 1) * (v * v) + v * v == h.len() * (v * v)) by (nonlinear_arith);
    }
}

/// A run whose best fitness has not changed across the whole variation
/// window stops under a zero variation bound: `sample` consecutive
/// generations with equal best cost satisfy the convergence test with
/// `cv = 0`.
pub proof fn lemma_zero_variation_stops(
    t: Termination,
    gen: int,
    elapsed_ms: u64,
    h: Seq<u64>,
    sample: usize,
    v: u64,
)
    requires
        t.variation == Some((sample, 0u32)),
        1 <= sample <= h.len(),
        forall|i: int| h.len() - sample <= i < h.len() ==> (#[trigger] h[i]) == v,
    ensures
        should_stop_spec(t, gen, elapsed_ms, h),
{
    let w = h.skip(h.len() - sample);
    assert(forall|i: int| 0 <= i < w.len() ==> (#[trigger] w[i]) == v);
    lemma_const_window(w, v);
    assert(w.len() == sample);
    let n = sample as int;
    let vv = v as int;
    assert(n * (n * (vv * vv)) - (n * vv) * (n * vv) == 0) by (nonlinear_arith);
    assert(1000000 * (w.len() * sumsq_hist(w) - sum_hist(w) * sum_hist(w)) == 0);
}

} // verus!
