//! Density clustering and the cluster-based ruin strategy.
//!
//! Jobs are grouped by cost proximity: a job with at least `min_pts - 1`
//! neighbors within `eps` is a core point, and a cluster is grown by
//! absorbing every job within `eps` of any of its core points.  The epsilon
//! radius is estimated from the k-distance curve: sort every job's distance
//! to its k-th nearest neighbor (averaged over the fleet profiles) and take
//! the curve value farthest from the straight line through the curve's
//! endpoints.  The estimator is a pure function of the cost matrices; the
//! clustering pass returns clusters that are non-empty, pairwise disjoint
//! and drawn from the problem's jobs.

use vstd::prelude::*;
use vstd::multiset::Multiset;
use vstd::relations::{sorted_by, total_ordering};
use crate::model::{Problem, Matrix, Individual, routes_ms, lemma_routes_ms_push, lemma_wf_route_jobs, MAX_COST, MAX_JOBS, MAX_PROFILES};
use crate::limit::RemovalLimit;
use crate::rng::Rng;
use crate::sorting::{sort_u64s, sorted_u64};

verus! {

/// The total order used for every distance sort.
pub open spec fn u64_leq() -> spec_fn(u64, u64) -> bool {
    |a: u64, b: u64| a <= b
}

/// The costs from job `j` to every other job, in job order.
pub open spec fn row_costs(m: Matrix, j: int, n: int) -> Seq<u64> {
    Seq::new((n - 1) as nat, |i: int| m.at(j, if i < j { i } else { i + 1 }))
}

/// The distance from job `j` to its `nth` nearest other job under `m`
/// (zero when there is no such neighbor).
pub open spec fn kth_cost_spec(m: Matrix, j: int, nth: int, n: int) -> u64 {
    if 0 <= nth < n - 1 {
        row_costs(m, j, n).sort_by(u64_leq())[nth]
    } else {
        0u64
    }
}

/// Sum of the `nth`-neighbor distances of job `j` over the given profiles.
pub open spec fn sum_kth_spec(profs: Seq<Matrix>, j: int, nth: int, n: int) -> int
    decreases profs.len(),
{
    if profs.len() == 0 {
        0
    } else {
        kth_cost_spec(profs[0], j, nth, n) + sum_kth_spec(profs.drop_first(), j, nth, n)
    }
}

/// The `nth`-neighbor distance of job `j`, averaged over all profiles.
pub open spec fn avg_kth_spec(p: Problem, j: int, nth: int) -> u64 {
    (sum_kth_spec(p.profiles@, j, nth, p.n_jobs as int) / p.profiles@.len() as int) as u64
}

/// The ascending k-distance curve of the problem.
pub open spec fn curve_spec(p: Problem, nth: int) -> Seq<u64> {
    Seq::new(p.n_jobs as nat, |j: int| avg_kth_spec(p, j, nth)).sort_by(u64_leq())
}

pub open spec fn abs_int(x: int) -> int {
    if x < 0 {
        -x
    } else {
        x
    }
}

/// Numerator of the perpendicular distance from curve point `i` to the line
/// through the first and last curve points (the denominator is shared by
/// every point, so comparisons go by the numerator alone).
pub open spec fn curv_num(c: Seq<u64>, i: int) -> int {
    abs_int((c.last() - c[0]) * i - (c.len() - 1) * c[i] + (c.len() - 1) * c[0])
}

/// The fold of the curvature scan over the first `k` curve points: the
/// y-value with the greatest line distance so far, first maximum kept.
pub open spec fn best_curv(c: Seq<u64>, k: int) -> (u64, int)
    decreases k,
{
    if k <= 0 {
        (0u64, -1)
    } else {
        let prev = best_curv(c, k - 1);
        if curv_num(c, k - 1) > prev.1 {
            (c[k - 1], curv_num(c, k - 1))
        } else {
            prev
        }
    }
}

/// The epsilon estimate: the y-value of the curve point of maximum
/// curvature, and zero for an empty curve.
pub open spec fn estimate_epsilon_spec(p: Problem, nth: int) -> u64 {
    if p.n_jobs == 0 {
        0u64
    } else {
        best_curv(curve_spec(p, nth), curve_spec(p, nth).len() as int).0
    }
}

/// A sorted copy of the values equals the specification-level sort.
proof fn lemma_sorted_is_sort_by(x: Seq<u64>, y: Seq<u64>)
    requires
        sorted_u64(y),
        x.to_multiset() == y.to_multiset(),
    ensures
        y =~= x.sort_by(u64_leq()),
{
    assert(total_ordering(u64_leq()));
    x.lemma_sort_by_ensures(u64_leq());
    assert(sorted_by(y, u64_leq())) by {
        assert(forall|a: int, b: int|
            0 <= a < b < y.len() ==> #[trigger] u64_leq()(y[a], y[b]));
    }
    vstd::seq_lib::lemma_sorted_unique(y, x.sort_by(u64_leq()), u64_leq());
}

/// Elements of a multiset-equal sequence obey the same upper bound.
proof fn lemma_multiset_bound(x: Seq<u64>, y: Seq<u64>, bound: u64)
    requires
        x.to_multiset() == y.to_multiset(),
        forall|i: int| 0 <= i < x.len() ==> (#[trigger] x[i]) <= bound,
    ensures
        forall|i: int| 0 <= i < y.len() ==> (#[trigger] y[i]) <= bound,
{
    broadcast use vstd::seq_lib::group_to_multiset_ensures;

    assert forall|i: int| 0 <= i < y.len() implies (#[trigger] y[i]) <= bound by {
        assert(y.contains(y[i]));
        assert(y.to_multiset().count(y[i]) > 0);
        assert(x.to_multiset().count(y[i]) > 0);
        assert(x.contains(y[i]));
    }
}

/// The distance from job `j` to its `nth` nearest other job under one
/// profile matrix.
fn kth_cost(m: &Matrix, j: usize, nth: usize, n: usize) -> (r: u64)
    requires
        m.wf(n as int),
        j < n,
        n <= MAX_JOBS,
    ensures
        r == kth_cost_spec(*m, j as int, nth as int, n as int),
        r <= MAX_COST,
{
    let mut row: Vec<u64> = Vec::new();
    let mut x: usize = 0;
    while x < n
        invariant
            x <= n,
            m.wf(n as int),
            j < n,
            row@.len() == if x <= j {
                x as int
            } else {
                x - 1
            },
            forall|i: int|
                0 <= i < row@.len() ==> (#[trigger] row@[i]) == row_costs(*m, j as int, n as int)[i],
            forall|i: int| 0 <= i < row@.len() ==> (#[trigger] row@[i]) <= MAX_COST,
        decreases n - x,
    {
        if x != j {
            let c = m.get(j, x);
            row.push(c);
        }
        x += 1;
    }
    proof {
        assert(row@ =~= row_costs(*m, j as int, n as int));
    }
    let ghost unsorted = row@;
    sort_u64s(&mut row);
    proof {
        lemma_sorted_is_sort_by(unsorted, row@);
        lemma_multiset_bound(unsorted, row@, MAX_COST);
    }
    if nth < row.len() {
        row[nth]
    } else {
        0
    }
}

/// The `nth`-neighbor distance of job `j` averaged over all fleet profiles.
fn avg_kth(p: &Problem, j: usize, nth: usize) -> (r: u64)
    requires
        p.wf(),
        j < p.n_jobs,
    ensures
        r == avg_kth_spec(*p, j as int, nth as int),
        r <= MAX_COST,
{
    let mut sum: u64 = 0;
    let mut k: usize = 0;
    while k < p.profiles.len()
        invariant
            k <= p.profiles@.len(),
            p.wf(),
            j < p.n_jobs,
            sum == sum_kth_spec(p.profiles@.take(k as int), j as int, nth as int, p.n_jobs as int),
            sum <= k * MAX_COST,
        decreases p.profiles@.len() - k,
    {
        proof {
            lemma_sum_kth_take(p.profiles@, j as int, nth as int, p.n_jobs as int, k as int);
            assert((k + 1) * MAX_COST == k * MAX_COST + MAX_COST) by (nonlinear_arith);
            assert(k * MAX_COST <= MAX_PROFILES * MAX_COST) by (nonlinear_arith)
                requires
                    0 <= k < MAX_PROFILES,
            ;
        }
        let c = kth_cost(&p.profiles[k], j, nth, p.n_jobs);
        sum = sum + c;
        k += 1;
    }
    proof {
        assert(p.profiles@.take(p.profiles@.len() as int) =~= p.profiles@);
        lemma_sum_kth_bound(p.profiles@, j as int, nth as int, p.n_jobs as int);
    }
    let len = p.profiles.len() as u64;
    let avg = sum / len;
    proof {
        assert(avg <= MAX_COST) by (nonlinear_arith)
            requires
                avg == sum as int / len as int,
                sum <= p.profiles@.len() * MAX_COST,
                len == p.profiles@.len(),
                len >= 1,
        ;
    }
    avg
}

/// Prefix step for the profile sum.
proof fn lemma_sum_kth_take(profs: Seq<Matrix>, j: int, nth: int, n: int, k: int)
    requires
        0 <= k < profs.len(),
    ensures
        sum_kth_spec(profs.take(k + 1), j, nth, n) == sum_kth_spec(profs.take(k), j, nth, n)
            + kth_cost_spec(profs[k], j, nth, n),
    decreases k,
{
    if k == 0 {
        assert(profs.take(1).drop_first() =~= Seq::<Matrix>::empty());
        assert(profs.take(0) =~= Seq::<Matrix>::empty());
    } else {
        assert(profs.take(k + 1).drop_first() =~= profs.drop_first().take(k));
        assert(profs.take(k).drop_first() =~= profs.drop_first().take(k - 1));
        lemma_sum_kth_take(profs.drop_first(), j, nth, n, k - 1);
    }
}

/// The profile sum is non-negative.
proof fn lemma_sum_kth_bound(profs: Seq<Matrix>, j: int, nth: int, n: int)
    ensures
        0 <= sum_kth_spec(profs, j, nth, n),
    decreases profs.len(),
{
    if profs.len() > 0 {
        lemma_sum_kth_bound(profs.drop_first(), j, nth, n);
    }
}

/// Estimates the epsilon radius for the given neighbor rank.  The result is
/// a pure function of the problem's cost matrices — two calls on the same
/// problem return the same value — and it is zero for a problem without
/// jobs.
pub fn estimate_epsilon(p: &Problem, nth: usize) -> (r: u64)
    requires
        p.wf(),
    ensures
        r == estimate_epsilon_spec(*p, nth as int),
        r <= MAX_COST,
        p.n_jobs == 0 ==> r == 0,
{
    if p.n_jobs == 0 {
        return 0;
    }
    let mut costs: Vec<u64> = Vec::new();
    let mut j: usize = 0;
    while j < p.n_jobs
        invariant
            j <= p.n_jobs,
            p.wf(),
            costs@.len() == j,
            forall|i: int|
                0 <= i < j ==> (#[trigger] costs@[i]) == avg_kth_spec(*p, i, nth as int),
            forall|i: int| 0 <= i < j ==> (#[trigger] costs@[i]) <= MAX_COST,
        decreases p.n_jobs - j,
    {
        let c = avg_kth(p, j, nth);
        costs.push(c);
        j += 1;
    }
    proof {
        assert(costs@ =~= Seq::new(p.n_jobs as nat, |i: int| avg_kth_spec(*p, i, nth as int)));
    }
    let ghost unsorted = costs@;
    sort_u64s(&mut costs);
    proof {
        lemma_sorted_is_sort_by(unsorted, costs@);
        lemma_multiset_bound(unsorted, costs@, MAX_COST);
        assert(costs@ =~= curve_spec(*p, nth as int));
    }
    max_curvature(&costs)
}

/// Bound on a product of bounded factors.
proof fn lemma_mul_bound(a: int, b: int, ca: int, cb: int)
    requires
        abs_int(a) <= ca,
        0 <= b <= cb,
    ensures
        abs_int(a * b) <= ca * cb,
{
    assert(abs_int(a * b) <= ca * cb) by (nonlinear_arith)
        requires
            abs_int(a) <= ca,
            0 <= b <= cb,
    ;
}

/// The curve value with the greatest perpendicular distance to the line
/// through the first and last curve points; the first maximum is kept, and
/// an empty curve gives zero.
pub fn max_curvature(c: &Vec<u64>) -> (r: u64)
    requires
        c@.len() <= MAX_JOBS,
        forall|i: int| 0 <= i < c@.len() ==> (#[trigger] c@[i]) <= MAX_COST,
    ensures
        r == if c@.len() == 0 {
            0u64
        } else {
            best_curv(c@, c@.len() as int).0
        },
        r <= MAX_COST,
{
    if c.len() == 0 {
        return 0;
    }
    let first = c[0];
    let last = c[c.len() - 1];
    let lx: i128 = (c.len() - 1) as i128;
    let dy: i128 = last as i128 - first as i128;
    proof {
        assert(lx * (first as i128) <= (MAX_JOBS as i128) * (MAX_COST as i128)) by (
        nonlinear_arith)
            requires
                0 <= lx <= MAX_JOBS as i128,
                0 <= first <= MAX_COST,
        ;
        assert(lx * (first as i128) >= 0) by (nonlinear_arith)
            requires
                0 <= lx,
                0 <= first,
        ;
    }
    let base: i128 = lx * (first as i128);
    let mut best_y: u64 = 0;
    let mut best_num: i128 = -1;
    let mut i: usize = 0;
    while i < c.len()
        invariant
            i <= c@.len(),
            1 <= c@.len() <= MAX_JOBS,
            forall|t: int| 0 <= t < c@.len() ==> (#[trigger] c@[t]) <= MAX_COST,
            first == c@[0],
            last == c@[c@.len() - 1],
            lx == c@.len() - 1,
            dy == last - first,
            base == lx * first,
            abs_int(base as int) <= MAX_JOBS * MAX_COST,
            (best_y, best_num as int) == best_curv(c@, i as int),
            best_y <= MAX_COST,
            abs_int(best_num as int) <= 3 * (MAX_JOBS as int) * (MAX_COST as int),
        decreases c@.len() - i,
    {
        proof {
            lemma_mul_bound(dy as int, i as int, MAX_COST as int, MAX_JOBS as int);
            lemma_mul_bound(lx as int, c@[i as int] as int, MAX_JOBS as int, MAX_COST as int);
            assert((MAX_COST as int) * (MAX_JOBS as int) == (MAX_JOBS as int) * (MAX_COST as int))
                by (nonlinear_arith);
        }
        let term1 = dy * (i as i128);
        let term2 = lx * (c[i] as i128);
        let raw = term1 - term2 + base;
        let num = if raw < 0 {
            -raw
        } else {
            raw
        };
        proof {
            assert(num as int == curv_num(c@, i as int)) by {
                assert(c@.last() == last);
                assert(raw as int == (c@.last() - c@[0]) * (i as int) - (c@.len() - 1)
                    * c@[i as int] + (c@.len() - 1) * c@[0]);
            }
        }
        if num > best_num {
            best_y = c[i];
            best_num = num;
        }
        i += 1;
    }
    best_y
}

/// How many of the jobs below `upto` lie strictly within `eps` of job `j`,
/// not counting `j` itself.
pub open spec fn nbr_count(m: Matrix, j: int, eps: u64, upto: int) -> int
    decreases upto,
{
    if upto <= 0 {
        0
    } else {
        nbr_count(m, j, eps, upto - 1) + if upto - 1 != j && m.at(j, upto - 1) < eps {
            1int
        } else {
            0int
        }
    }
}

/// A job is a core point when it has at least `min_pts - 1` neighbors
/// within `eps`.
pub open spec fn is_core(m: Matrix, j: int, eps: u64, n: int, min_pts: int) -> bool {
    nbr_count(m, j, eps, n) + 1 >= min_pts
}

/// How many jobs other than `j` lie strictly within `eps` of it.
fn count_neighbors(m: &Matrix, j: usize, eps: u64, n: usize) -> (r: usize)
    requires
        m.wf(n as int),
        j < n,
        n <= MAX_JOBS,
    ensures
        r <= n,
        r == nbr_count(*m, j as int, eps, n as int),
{
    let mut count: usize = 0;
    let mut x: usize = 0;
    while x < n
        invariant
            x <= n,
            count <= x,
            m.wf(n as int),
            j < n,
            count == nbr_count(*m, j as int, eps, x as int),
        decreases n - x,
    {
        if x != j {
            if m.get(j, x) < eps {
                count += 1;
            }
        }
        x += 1;
    }
    count
}

/// Number of `true` entries.
spec fn count_trues(s: Seq<bool>) -> int
    decreases s.len(),
{
    if s.len() == 0 {
        0
    } else {
        (if s[0] {
            1int
        } else {
            0int
        }) + count_trues(s.drop_first())
    }
}

proof fn lemma_count_trues_bound(s: Seq<bool>)
    ensures
        0 <= count_trues(s) <= s.len(),
    decreases s.len(),
{
    if s.len() > 0 {
        lemma_count_trues_bound(s.drop_first());
    }
}

proof fn lemma_count_trues_update(s: Seq<bool>, i: int)
    requires
        0 <= i < s.len(),
        !s[i],
    ensures
        count_trues(s.update(i, true)) == count_trues(s) + 1,
    decreases i,
{
    if i == 0 {
        assert(s.update(0, true).drop_first() =~= s.drop_first());
    } else {
        assert(s.update(i, true).drop_first() =~= s.drop_first().update(i - 1, true));
        lemma_count_trues_update(s.drop_first(), i - 1);
    }
}

/// The clusters as a multiset of jobs.
pub open spec fn clusters_jobs(cl: Seq<Vec<usize>>) -> Multiset<usize> {
    routes_ms(cl.map_values(|v: Vec<usize>| v@))
}

/// The cluster multiset seen through any sequence of the clusters' views.
proof fn lemma_clusters_jobs_view(cl: Seq<Vec<usize>>, rs: Seq<Seq<usize>>)
    requires
        rs.len() == cl.len(),
        forall|i: int| 0 <= i < cl.len() ==> #[trigger] rs[i] == cl[i]@,
    ensures
        clusters_jobs(cl) == routes_ms(rs),
{
    assert(cl.map_values(|v: Vec<usize>| v@) =~= rs);
}

/// Invariant of the clustering pass: together, the finished clusters and the
/// cluster under construction hold exactly the jobs marked in `asg`, once
/// each.
spec fn coverage(done: Seq<Vec<usize>>, cur: Seq<usize>, asg: Seq<bool>, n: int) -> bool {
    forall|x: usize|
        #![trigger cur.to_multiset().count(x)]
        clusters_jobs(done).count(x) + cur.to_multiset().count(x) == if (x as int) < n && (
        x as int) < asg.len() && asg[x as int] {
            1int
        } else {
            0int
        }
}

/// Groups the problem's jobs into density clusters under the given profile
/// matrix and epsilon radius.  Every returned cluster is non-empty, every
/// member is one of the problem's jobs, and no job appears twice across the
/// returned clusters.
pub fn create_clusters(p: &Problem, profile: usize, eps: u64, min_pts: usize) -> (r: Vec<
    Vec<usize>,
>)
    requires
        p.wf(),
        profile < p.profiles@.len(),
    ensures
        forall|c: int| 0 <= c < r@.len() ==> (#[trigger] r@[c])@.len() >= 1,
        forall|c: int, k: int|
            0 <= c < r@.len() && 0 <= k < r@[c]@.len() ==> ((#[trigger] r@[c]@[k]) as int)
                < p.n_jobs,
        forall|x: usize| clusters_jobs(r@).count(x) <= 1,
        forall|x: usize|
            (x as int) < p.n_jobs && is_core(
                p.profiles@[profile as int],
                x as int,
                eps,
                p.n_jobs as int,
                min_pts as int,
            ) ==> clusters_jobs(r@).count(x) == 1,
{
    let n = p.n_jobs;
    let m = &p.profiles[profile];
    let mut clusters: Vec<Vec<usize>> = Vec::new();
    let mut asg: Vec<bool> = Vec::new();
    let mut t: usize = 0;
    while t < n
        invariant
            t <= n,
            asg@.len() == t,
            forall|i: int| 0 <= i < t ==> !(#[trigger] asg@[i]),
        decreases n - t,
    {
        asg.push(false);
        t += 1;
    }
    proof {
        assert(clusters@.map_values(|v: Vec<usize>| v@) =~= Seq::<Seq<usize>>::empty());
        assert forall|x: usize|
            clusters_jobs(clusters@).count(x) + Seq::<usize>::empty().to_multiset().count(x)
                == 0int by {
            broadcast use vstd::seq_lib::group_to_multiset_ensures;

            assert(!Seq::<usize>::empty().contains(x));
        }
        lemma_count_trues_all_false(asg@);
    }
    let mut seed: usize = 0;
    while seed < n
        invariant
            seed <= n,
            n == p.n_jobs,
            p.wf(),
            profile < p.profiles@.len(),
            m == &p.profiles@[profile as int],
            asg@.len() == n,
            coverage(clusters@, Seq::<usize>::empty(), asg@, n as int),
            clusters_jobs(clusters@).len() + 0 == count_trues(asg@),
            forall|x: usize|
                (x as int) < seed && is_core(
                    p.profiles@[profile as int],
                    x as int,
                    eps,
                    n as int,
                    min_pts as int,
                ) ==> asg@[x as int],
            forall|c: int| 0 <= c < clusters@.len() ==> (#[trigger] clusters@[c])@.len() >= 1,
            forall|c: int, k: int|
                0 <= c < clusters@.len() && 0 <= k < clusters@[c]@.len() ==> ((
                #[trigger] clusters@[c]@[k]) as int) < n,
        decreases n - seed,
    {
        let is_seed_free = !asg[seed];
        let core = if is_seed_free {
            count_neighbors(m, seed, eps, n) + 1 >= min_pts
        } else {
            false
        };
        if is_seed_free && core {
            // grow a new cluster from this core point
            let mut cluster: Vec<usize> = Vec::new();
            let ghost pre_asg = asg@;
            asg.set(seed, true);
            cluster.push(seed);
            proof {
                broadcast use vstd::seq_lib::group_to_multiset_ensures;

                lemma_count_trues_update(pre_asg, seed as int);
                lemma_count_trues_bound(asg@);
                assert(cluster@ =~= Seq::<usize>::empty().push(seed));
                assert(cluster@.to_multiset() =~= Seq::<usize>::empty().to_multiset().insert(seed));
                assert forall|y: usize|
                    clusters_jobs(clusters@).count(y) + cluster@.to_multiset().count(y) == (if (
                    y as int) < n && (y as int) < asg@.len() && asg@[y as int] {
                        1int
                    } else {
                        0int
                    }) by {
                    assert(clusters_jobs(clusters@).count(y)
                        + Seq::<usize>::empty().to_multiset().count(y) == (if (y as int) < n && (
                    y as int) < pre_asg.len() && pre_asg[y as int] {
                        1int
                    } else {
                        0int
                    }));
                    assert(!Seq::<usize>::empty().contains(y));
                }
            }
            let mut head: usize = 0;
            while head < cluster.len()
                invariant
                    head <= cluster@.len(),
                    n == p.n_jobs,
                    p.wf(),
                    profile < p.profiles@.len(),
                    m == &p.profiles@[profile as int],
                    asg@.len() == n,
                    coverage(clusters@, cluster@, asg@, n as int),
                    clusters_jobs(clusters@).len() + cluster@.len() == count_trues(asg@),
                    1 <= cluster@.len() <= n,
                    seed < n && asg@[seed as int],
                    forall|x: usize|
                        (x as int) < seed && is_core(
                            p.profiles@[profile as int],
                            x as int,
                            eps,
                            n as int,
                            min_pts as int,
                        ) ==> asg@[x as int],
                    forall|k: int| 0 <= k < cluster@.len() ==> ((#[trigger] cluster@[k]) as int) < n,
                    forall|c: int| 0 <= c < clusters@.len() ==> (#[trigger] clusters@[c])@.len() >= 1,
                    forall|c: int, k: int|
                        0 <= c < clusters@.len() && 0 <= k < clusters@[c]@.len() ==> ((
                        #[trigger] clusters@[c]@[k]) as int) < n,
                decreases n - head,
            {
                proof {
                    lemma_count_trues_bound(asg@);
                    vstd::seq_lib::to_multiset_len(cluster@);
                }
                let u = cluster[head];
                let u_core = count_neighbors(m, u, eps, n) + 1 >= min_pts;
                if u_core {
                    let mut x: usize = 0;
                    while x < n
                        invariant
                            x <= n,
                            head < cluster@.len(),
                            n == p.n_jobs,
                            p.wf(),
                            profile < p.profiles@.len(),
                            m == &p.profiles@[profile as int],
                            u == cluster@[head as int],
                            (u as int) < n,
                            asg@.len() == n,
                            coverage(clusters@, cluster@, asg@, n as int),
                            clusters_jobs(clusters@).len() + cluster@.len() == count_trues(asg@),
                            1 <= cluster@.len() <= n,
                            seed < n && asg@[seed as int],
                            forall|x: usize|
                                (x as int) < seed && is_core(
                                    p.profiles@[profile as int],
                                    x as int,
                                    eps,
                                    n as int,
                                    min_pts as int,
                                ) ==> asg@[x as int],
                            forall|k: int|
                                0 <= k < cluster@.len() ==> ((#[trigger] cluster@[k]) as int) < n,
                        decreases n - x,
                    {
                        proof {
                            lemma_count_trues_bound(asg@);
                            vstd::seq_lib::to_multiset_len(cluster@);
                        }
                        if x != u && !asg[x] {
                            if m.get(u, x) < eps {
                                let ghost pre_asg = asg@;
                                let ghost pre_cluster = cluster@;
                                asg.set(x, true);
                                cluster.push(x);
                                proof {
                                    broadcast use vstd::seq_lib::group_to_multiset_ensures;

                                    lemma_count_trues_update(pre_asg, x as int);
                                    lemma_count_trues_bound(asg@);
                                    vstd::seq_lib::to_multiset_len(cluster@);
                                    assert(cluster@.to_multiset() =~= pre_cluster.to_multiset().insert(
                                        x,
                                    ));
                                    assert forall|y: usize|
                                        clusters_jobs(clusters@).count(y)
                                            + cluster@.to_multiset().count(y) == (if (y as int) < n
                                            && (y as int) < asg@.len() && asg@[y as int] {
                                            1int
                                        } else {
                                            0int
                                        }) by {
                                        assert(clusters_jobs(clusters@).count(y)
                                            + pre_cluster.to_multiset().count(y) == (if (y as int)
                                            < n && (y as int) < pre_asg.len() && pre_asg[y as int] {
                                            1int
                                        } else {
                                            0int
                                        }));
                                    }
                                }
                            }
                        }
                        x += 1;
                    }
                }
                head += 1;
            }
            let ghost pre_clusters = clusters@;
            let ghost done_cluster = cluster@;
            clusters.push(cluster);
            proof {
                assert(clusters@.map_values(|v: Vec<usize>| v@) =~= pre_clusters.map_values(
                    |v: Vec<usize>| v@,
                ).push(done_cluster));
                lemma_routes_ms_push(pre_clusters.map_values(|v: Vec<usize>| v@), done_cluster);
                vstd::seq_lib::to_multiset_len(done_cluster);
                assert forall|x: usize|
                    clusters_jobs(clusters@).count(x) + Seq::<usize>::empty().to_multiset().count(x)
                        == (if (x as int) < n && (x as int) < asg@.len() && asg@[x as int] {
                        1int
                    } else {
                        0int
                    }) by {
                    broadcast use vstd::seq_lib::group_to_multiset_ensures;

                    assert(!Seq::<usize>::empty().contains(x));
                    assert(clusters_jobs(clusters@).count(x) == clusters_jobs(pre_clusters).count(x)
                        + done_cluster.to_multiset().count(x));
                }
            }
        }
        seed += 1;
    }
    proof {
        assert forall|x: usize| clusters_jobs(clusters@).count(x) <= 1 by {
            broadcast use vstd::seq_lib::group_to_multiset_ensures;

            assert(!Seq::<usize>::empty().contains(x));
            assert(Seq::<usize>::empty().to_multiset().count(x) == 0);
            assert(clusters_jobs(clusters@).count(x) + Seq::<usize>::empty().to_multiset().count(x)
                == (if (x as int) < n && (x as int) < asg@.len() && asg@[x as int] {
                1int
            } else {
                0int
            }));
        }
        assert forall|x: usize|
            (x as int) < p.n_jobs && is_core(
                p.profiles@[profile as int],
                x as int,
                eps,
                p.n_jobs as int,
                min_pts as int,
            ) implies clusters_jobs(clusters@).count(x) == 1 by {
            broadcast use vstd::seq_lib::group_to_multiset_ensures;

            assert(asg@[x as int]);
            assert(!Seq::<usize>::empty().contains(x));
            assert(Seq::<usize>::empty().to_multiset().count(x) == 0);
            assert(clusters_jobs(clusters@).count(x) + Seq::<usize>::empty().to_multiset().count(x)
                == (if (x as int) < n && (x as int) < asg@.len() && asg@[x as int] {
                1int
            } else {
                0int
            }));
        }
    }
    clusters
}

/// An all-false mask has no trues.
proof fn lemma_count_trues_all_false(s: Seq<bool>)
    requires
        forall|i: int| 0 <= i < s.len() ==> !(#[trigger] s[i]),
    ensures
        count_trues(s) == 0,
    decreases s.len(),
{
    if s.len() > 0 {
        lemma_count_trues_all_false(s.drop_first());
    }
}

/// A ruin strategy that removes whole density clusters of jobs.  The table
/// of `(min_pts, epsilon)` pairs is precomputed from the problem; one pair
/// and one profile are drawn per call, the epsilon is jittered by up to ten
/// percent, and shuffled clusters are removed until the removal limit's
/// target is met (the last cluster is split rather than overshooting).
pub struct ClusterRemoval {
    /// Possible `(min_pts, epsilon)` parameter pairs.
    pub params: Vec<(usize, u64)>,
    /// Bounds on how many jobs one call removes.
    pub limit: RemovalLimit,
}

/// The postconditions of one clustering pass over the problem's jobs for
/// the given profile, epsilon and minimum-points parameters: clusters are
/// non-empty, drawn from the problem's jobs, hold no job twice, and cover
/// every core point.
pub open spec fn clustering_pass(
    cl: Seq<Seq<usize>>,
    p: Problem,
    profile: int,
    eps: u64,
    min_pts: int,
) -> bool {
    &&& 0 <= profile < p.profiles@.len()
    &&& forall|c: int| 0 <= c < cl.len() ==> (#[trigger] cl[c]).len() >= 1
    &&& forall|c: int, k: int|
        0 <= c < cl.len() && 0 <= k < cl[c].len() ==> ((#[trigger] cl[c][k]) as int) < p.n_jobs
    &&& forall|x: usize| routes_ms(cl).count(x) <= 1
    &&& forall|x: usize|
        (x as int) < p.n_jobs && is_core(p.profiles@[profile], x as int, eps, p.n_jobs as int, min_pts)
            ==> routes_ms(cl).count(x) == 1
}

/// One drawn parameterization of the cluster ruin — a fleet profile, a
/// table pick and an epsilon jitter — together with a cluster sequence
/// that is a clustering pass for those parameters.
pub open spec fn drawn_pass(
    cr: ClusterRemoval,
    p: Problem,
    profile: int,
    pick: int,
    jitter: u64,
    cl: Seq<Seq<usize>>,
) -> bool {
    &&& 0 <= profile < p.profiles@.len()
    &&& 0 <= pick < cr.params@.len()
    &&& 900 <= jitter <= 1100
    &&& clustering_pass(
        cl,
        p,
        profile,
        ((cr.params@[pick].1 * jitter / 1000) as u64),
        cr.params@[pick].0 as int,
    )
}

/// How many members of the sequence sit in a route of `ind`.
pub open spec fn seq_assigned_count(s: Seq<usize>, ind: Individual) -> int
    decreases s.len(),
{
    if s.len() == 0 {
        0
    } else {
        (if routes_ms(ind.routes_seq()).count(s[0]) >= 1 {
            1int
        } else {
            0int
        }) + seq_assigned_count(s.drop_first(), ind)
    }
}

/// How many members of all the clusters sit in a route of `ind`.
pub open spec fn clusters_assigned_count(cl: Seq<Seq<usize>>, ind: Individual) -> int
    decreases cl.len(),
{
    if cl.len() == 0 {
        0
    } else {
        seq_assigned_count(cl[0], ind) + clusters_assigned_count(cl.drop_first(), ind)
    }
}

/// Prefix step of the assigned-member count within one cluster.
proof fn lemma_seq_assigned_take(s: Seq<usize>, ind: Individual, k: int)
    requires
        0 <= k < s.len(),
    ensures
        seq_assigned_count(s.take(k + 1), ind) == seq_assigned_count(s.take(k), ind) + (
        if routes_ms(ind.routes_seq()).count(s[k]) >= 1 {
            1int
        } else {
            0int
        }),
    decreases k,
{
    if k == 0 {
        assert(s.take(1).drop_first() =~= Seq::<usize>::empty());
        assert(s.take(0) =~= Seq::<usize>::empty());
    } else {
        assert(s.take(k + 1).drop_first() =~= s.drop_first().take(k));
        assert(s.take(k).drop_first() =~= s.drop_first().take(k - 1));
        lemma_seq_assigned_take(s.drop_first(), ind, k - 1);
    }
}

/// The assigned-member count of a cluster is between zero and its size.
proof fn lemma_seq_assigned_bounds(s: Seq<usize>, ind: Individual)
    ensures
        0 <= seq_assigned_count(s, ind) <= s.len(),
    decreases s.len(),
{
    if s.len() > 0 {
        lemma_seq_assigned_bounds(s.drop_first(), ind);
    }
}

/// Prefix step of the assigned-member count over the clusters.
proof fn lemma_clusters_assigned_take(cl: Seq<Seq<usize>>, ind: Individual, c: int)
    requires
        0 <= c < cl.len(),
    ensures
        clusters_assigned_count(cl.take(c + 1), ind) == clusters_assigned_count(cl.take(c), ind)
            + seq_assigned_count(cl[c], ind),
    decreases c,
{
    if c == 0 {
        assert(cl.take(1).drop_first() =~= Seq::<Seq<usize>>::empty());
        assert(cl.take(0) =~= Seq::<Seq<usize>>::empty());
    } else {
        assert(cl.take(c + 1).drop_first() =~= cl.drop_first().take(c));
        assert(cl.take(c).drop_first() =~= cl.drop_first().take(c - 1));
        lemma_clusters_assigned_take(cl.drop_first(), ind, c - 1);
    }
}

/// The parameter table of the cluster ruin: for every cluster size in the
/// configured range (raised to at least 3, extended to stay non-empty),
/// the pair of that size and the epsilon estimate for its neighbor rank.
pub open spec fn cluster_params_spec(p: Problem, cmin: int, cmax: int) -> Seq<(usize, u64)> {
    let lo = if cmin < 3 {
        3int
    } else {
        cmin
    };
    let hi_raw = if cmax < p.n_jobs {
        cmax
    } else {
        p.n_jobs as int
    };
    let hi = if hi_raw < lo + 1 {
        lo + 1
    } else {
        hi_raw
    };
    Seq::new((hi - lo) as nat, |t: int| ((lo + t) as usize, estimate_epsilon_spec(p, lo + t - 1)))
}

impl ClusterRemoval {
    pub open spec fn wf(self) -> bool {
        &&& self.params@.len() >= 1
        &&& self.limit.wf()
        &&& forall|i: int| 0 <= i < self.params@.len() ==> (#[trigger] self.params@[i]).1 <= MAX_COST
    }

    /// Builds the parameter table: for every cluster size in the given
    /// range (at least 3, extended to stay non-empty), the epsilon estimate
    /// for that neighborhood rank.
    pub fn new(p: &Problem, cmin: usize, cmax: usize, limit: RemovalLimit) -> (r: ClusterRemoval)
        requires
            p.wf(),
            limit.wf(),
            cmin <= MAX_JOBS,
        ensures
            r.wf(),
            r.limit == limit,
            r.params@ == cluster_params_spec(*p, cmin as int, cmax as int),
    {
        let lo = if cmin < 3 {
            3
        } else {
            cmin
        };
        let hi_raw = if cmax < p.n_jobs {
            cmax
        } else {
            p.n_jobs
        };
        let hi = if hi_raw < lo + 1 {
            lo + 1
        } else {
            hi_raw
        };
        let ghost table = cluster_params_spec(*p, cmin as int, cmax as int);
        proof {
            assert(table.len() == hi - lo);
        }
        let mut params: Vec<(usize, u64)> = Vec::new();
        let mut pts: usize = lo;
        while pts < hi
            invariant
                3 <= lo <= pts <= hi,
                p.wf(),
                table == cluster_params_spec(*p, cmin as int, cmax as int),
                table == Seq::new((hi - lo) as nat, |t: int| (((lo + t) as usize), estimate_epsilon_spec(*p, lo + t - 1))),
                params@.len() == pts - lo,
                params@ =~= table.take(pts - lo),
                forall|i: int| 0 <= i < params@.len() ==> (#[trigger] params@[i]).1 <= MAX_COST,
            decreases hi - pts,
        {
            let eps = estimate_epsilon(p, pts - 1);
            params.push((pts, eps));
            proof {
                assert(table[pts - lo] == (pts, estimate_epsilon_spec(*p, pts as int - 1)));
                assert(params@ =~= table.take(pts - lo + 1));
            }
            pts += 1;
        }
        proof {
            assert(params@ =~= table);
        }
        ClusterRemoval { params, limit }
    }

    /// No job is created or lost, and the call removes whole clusters of
    /// one clustering pass, in a drawn order, until the removal count is
    /// met, splitting the last cluster rather than overshooting: for some
    /// drawn profile, parameter pair and jitter there is a cluster sequence
    /// with the clustering-pass properties such that exactly
    /// `min(count, assigned members of those clusters)` jobs move to the
    /// unassigned list.
    pub fn run(&self, rng: &mut Rng, p: &Problem, ind: &mut Individual)
        requires
            p.wf(),
            old(ind).wf(*p),
            self.wf(),
        ensures
            final(ind).wf(*p),
            final(ind).jobs() == old(ind).jobs(),
            final(ind).unassigned@.len() >= old(ind).unassigned@.len(),
            final(ind).unassigned@.len() <= old(ind).unassigned@.len()
                + self.limit.removal_count_spec(old(ind).assigned_len()),
            exists|profile: int, pick: int, jitter: u64, cl: Seq<Seq<usize>>|
                {
                    &&& #[trigger] drawn_pass(*self, *p, profile, pick, jitter, cl)
                    &&& final(ind).unassigned@.len() == old(ind).unassigned@.len() + ({
                        let avail = clusters_assigned_count(cl, *old(ind));
                        let cnt = self.limit.removal_count_spec(old(ind).assigned_len());
                        if cnt < avail {
                            cnt
                        } else {
                            avail
                        }
                    })
                },
    {
        proof {
            lemma_wf_route_jobs(*ind, *p);
        }
        let total = ind.count_assigned();
        let count = self.limit.removal_count(total);
        // draw the clustering parameters
        let profile = rng.below(p.profiles.len());
        let pick = rng.below(self.params.len());
        let (min_pts, eps0) = self.params[pick];
        let jitter = rng.range_u64(900, 1100);
        proof {
            assert(self.params@[pick as int].1 <= MAX_COST);
            assert(eps0 * jitter <= MAX_COST * 1100) by (nonlinear_arith)
                requires
                    eps0 <= MAX_COST,
                    jitter <= 1100,
            ;
        }
        let eps = eps0 * jitter / 1000;
        let clusters = create_clusters(p, profile, eps, min_pts);
        let ghost rsview = Seq::new(clusters@.len() as nat, |i: int| clusters@[i]@);
        proof {
            lemma_clusters_jobs_view(clusters@, rsview);
        }
        // visit the clusters in a drawn order
        let mut order: Vec<usize> = Vec::new();
        let mut t: usize = 0;
        while t < clusters.len()
            invariant
                t <= clusters@.len(),
                order@.len() == t,
                forall|i: int| 0 <= i < t ==> (#[trigger] order@[i]) == i,
            decreases clusters@.len() - t,
        {
            order.push(t);
            t += 1;
        }
        let ghost before_shuffle = order@;
        proof {
            assert(before_shuffle.no_duplicates());
        }
        crate::rng::shuffle_vec(rng, &mut order);
        let ghost cl = Seq::new(order@.len() as nat, |w: int| clusters@[order@[w] as int]@);
        proof {
            broadcast use vstd::seq_lib::group_to_multiset_ensures;

            assert forall|i: int| 0 <= i < order@.len() implies (#[trigger] order@[i])
                < clusters@.len() by {
                assert(order@.contains(order@[i]));
                assert(order@.to_multiset().count(order@[i]) > 0);
                assert(before_shuffle.to_multiset().count(order@[i]) > 0);
                assert(before_shuffle.contains(order@[i]));
            }
            before_shuffle.lemma_multiset_has_no_duplicates();
            order@.lemma_multiset_has_no_duplicates_conv();
            // the walked view holds no job more often than the pass itself
            let oi = order@.map_values(|u: usize| u as int);
            assert(oi.no_duplicates()) by {
                assert forall|a: int, b: int|
                    0 <= a < oi.len() && 0 <= b < oi.len() && a != b implies oi[a] != oi[b] by {
                    assert(order@[a] != order@[b]);
                }
            }
            assert forall|x: usize| routes_ms(cl).count(x) <= 1 by {
                crate::model::lemma_routes_ms_mapped_le(rsview, oi, cl, x);
            }
            // every core point of the pass sits somewhere in the walk
            assert forall|x: usize|
                (x as int) < p.n_jobs && is_core(
                    p.profiles@[profile as int],
                    x as int,
                    eps,
                    p.n_jobs as int,
                    min_pts as int,
                ) implies routes_ms(cl).count(x) == 1 by {
                assert(routes_ms(rsview).count(x) == 1);
                let pos = crate::model::lemma_routes_ms_count_member(rsview, x);
                crate::model::lemma_no_dup_covers(
                    order@,
                    clusters@.len() as int,
                    pos.0 as usize,
                );
                let w = choose|w: int| 0 <= w < order@.len() && order@[w] == pos.0 as usize;
                assert(cl[w][pos.1] == x);
                crate::model::lemma_routes_ms_member(cl, w, pos.1);
            }
            assert(clustering_pass(cl, *p, profile as int, eps, min_pts as int));
        }
        // remove cluster by cluster until the target count is met
        let mut removed: usize = 0;
        let mut c: usize = 0;
        while c < order.len()
            invariant
                c <= order@.len(),
                p.wf(),
                ind.wf(*p),
                ind.jobs() == old(ind).jobs(),
                ind.unassigned@.len() == old(ind).unassigned@.len() + removed,
                removed <= count,
                count == self.limit.removal_count_spec(old(ind).assigned_len()),
                order@.len() == clusters@.len(),
                cl == Seq::new(order@.len() as nat, |w: int| clusters@[order@[w] as int]@),
                forall|i: int| 0 <= i < order@.len() ==> (#[trigger] order@[i]) < clusters@.len(),
                forall|x: usize| routes_ms(cl).count(x) <= 1,
                removed == ({
                    let avail = clusters_assigned_count(cl.take(c as int), *old(ind));
                    if count < avail {
                        count as int
                    } else {
                        avail
                    }
                }),
                forall|t2: int, k2: int|
                    c <= t2 < cl.len() && 0 <= k2 < cl[t2].len() ==> routes_ms(
                        ind.routes_seq(),
                    ).count(#[trigger] cl[t2][k2]) == routes_ms(old(ind).routes_seq()).count(
                        cl[t2][k2],
                    ),
            decreases order@.len() - c,
        {
            let idx = order[c];
            let cluster = &clusters[idx];
            proof {
                assert(cluster@ == cl[c as int]);
                assert(cl[c as int].take(0) =~= Seq::<usize>::empty());
            }
            let mut k: usize = 0;
            while k < cluster.len()
                invariant
                    k <= cluster@.len(),
                    p.wf(),
                    ind.wf(*p),
                    ind.jobs() == old(ind).jobs(),
                    ind.unassigned@.len() == old(ind).unassigned@.len() + removed,
                    removed <= count,
                    c < cl.len(),
                    cluster@ == cl[c as int],
                    forall|x: usize| routes_ms(cl).count(x) <= 1,
                    removed == ({
                        let avail = clusters_assigned_count(cl.take(c as int), *old(ind))
                            + seq_assigned_count(cl[c as int].take(k as int), *old(ind));
                        if count < avail {
                            count as int
                        } else {
                            avail
                        }
                    }),
                    forall|t2: int, k2: int|
                        c <= t2 < cl.len() && 0 <= k2 < cl[t2].len() && (t2 > c || k2 >= k)
                            ==> routes_ms(ind.routes_seq()).count(#[trigger] cl[t2][k2])
                            == routes_ms(old(ind).routes_seq()).count(cl[t2][k2]),
                decreases cluster@.len() - k,
            {
                proof {
                    lemma_seq_assigned_take(cl[c as int], *old(ind), k as int);
                    lemma_seq_assigned_bounds(cl[c as int].take(k as int), *old(ind));
                }
                let job = cluster[k];
                if removed < count {
                    proof {
                        assert(cl[c as int][k as int] == job);
                        assert(routes_ms(ind.routes_seq()).count(job) == routes_ms(
                            old(ind).routes_seq(),
                        ).count(job));
                    }
                    let ghost pre = *ind;
                    let ok = crate::ruin::remove_by_id(p, ind, job);
                    proof {
                        broadcast use vstd::seq_lib::group_to_multiset_ensures;

                        assert forall|t2: int, k2: int|
                            c <= t2 < cl.len() && 0 <= k2 < cl[t2].len() && (t2 > c || k2 >= k
                                + 1) implies routes_ms(ind.routes_seq()).count(
                            #[trigger] cl[t2][k2],
                        ) == routes_ms(old(ind).routes_seq()).count(cl[t2][k2]) by {
                            let x = cl[t2][k2];
                            if ok {
                                if x == job {
                                    crate::model::lemma_routes_ms_two_pos(
                                        cl,
                                        c as int,
                                        k as int,
                                        t2,
                                        k2,
                                    );
                                    assert(false);
                                }
                                assert(ind.unassigned@ =~= pre.unassigned@.push(job));
                                assert(ind.unassigned@.to_multiset()
                                    =~= pre.unassigned@.to_multiset().insert(job));
                                assert(ind.unassigned@.to_multiset().count(x)
                                    == pre.unassigned@.to_multiset().count(x));
                                assert(ind.jobs().count(x) == routes_ms(ind.routes_seq()).count(x)
                                    + ind.unassigned@.to_multiset().count(x));
                                assert(pre.jobs().count(x) == routes_ms(pre.routes_seq()).count(x)
                                    + pre.unassigned@.to_multiset().count(x));
                            }
                        }
                    }
                    if ok {
                        removed += 1;
                    }
                }
                k += 1;
            }
            proof {
                assert(cl[c as int].take(cl[c as int].len() as int) =~= cl[c as int]);
                lemma_clusters_assigned_take(cl, *old(ind), c as int);
            }
            c += 1;
        }
        proof {
            assert(cl.take(cl.len() as int) =~= cl);
            assert(removed == ({
                let avail = clusters_assigned_count(cl, *old(ind));
                if count < avail {
                    count as int
                } else {
                    avail
                }
            }));
            assert(eps == ((self.params@[pick as int].1 * jitter / 1000) as u64));
            assert(min_pts == self.params@[pick as int].0);
            assert(drawn_pass(*self, *p, profile as int, pick as int, jitter, cl));
        }
    }
}

} // verus!
