//! Ruin strategies: operators that move a strategy-chosen subset of assigned
//! jobs back to the unassigned list.
//!
//! Every strategy guarantees that no job is created or lost: the multiset of
//! jobs held by the candidate is unchanged, only the split between assigned
//! and unassigned moves.  If fewer jobs are assigned than the computed
//! removal count, all assigned jobs are removed and the call still succeeds.

use vstd::prelude::*;
use crate::model::{Problem, Individual, remove_job_at, routes_total_len, routes_ms};
use crate::model::{lemma_wf_route_jobs, lemma_routes_total_len_take, lemma_routes_total_len_prefix};
use crate::limit::RemovalLimit;
use crate::rng::Rng;
use crate::sorting::sort_pairs;

verus! {

/// Finds the route and position of the `k`-th assigned job, counting route
/// by route.
pub fn locate_assigned(ind: &Individual, k: usize) -> (rp: (usize, usize))
    requires
        k < ind.assigned_len(),
        ind.assigned_len() <= usize::MAX,
    ensures
        rp.0 < ind.routes@.len(),
        rp.1 < ind.routes@[rp.0 as int]@.len(),
{
    let mut acc: usize = 0;
    let mut r: usize = 0;
    while r < ind.routes.len()
        invariant
            r <= ind.routes@.len(),
            acc == routes_total_len(ind.routes_seq().take(r as int)),
            acc <= k,
            k < ind.assigned_len(),
            ind.assigned_len() <= usize::MAX,
        decreases ind.routes@.len() - r,
    {
        proof {
            lemma_routes_total_len_take(ind.routes_seq(), r as int);
            lemma_routes_total_len_prefix(ind.routes_seq(), r as int + 1);
        }
        let len = ind.routes[r].len();
        if k < acc + len {
            return (r, k - acc);
        }
        acc = acc + len;
        r += 1;
    }
    proof {
        assert(ind.routes_seq().take(ind.routes_seq().len() as int) =~= ind.routes_seq());
        assert(false);
    }
    (0, 0)
}

/// Removes `count` assigned jobs picked uniformly without replacement (all
/// of them if fewer are assigned).  Shared by the randomized strategies.
fn remove_random_jobs(rng: &mut Rng, p: &Problem, ind: &mut Individual, count: usize)
    requires
        p.wf(),
        old(ind).wf(*p),
    ensures
        final(ind).wf(*p),
        final(ind).jobs() == old(ind).jobs(),
        final(ind).unassigned@.len() == old(ind).unassigned@.len() + if count
            <= old(ind).assigned_len() {
            count as int
        } else {
            old(ind).assigned_len()
        },
{
    proof {
        lemma_wf_route_jobs(*ind, *p);
    }
    let total = ind.count_assigned();
    let goal = if count <= total {
        count
    } else {
        total
    };
    let mut k: usize = 0;
    while k < goal
        invariant
            k <= goal,
            p.wf(),
            ind.wf(*p),
            ind.jobs() == old(ind).jobs(),
            goal <= old(ind).assigned_len(),
            ind.assigned_len() == old(ind).assigned_len() - k,
            ind.unassigned@.len() == old(ind).unassigned@.len() + k,
        decreases goal - k,
    {
        proof {
            lemma_wf_route_jobs(*ind, *p);
        }
        let remaining = ind.count_assigned();
        let idx = rng.below(remaining);
        let (r, pos) = locate_assigned(ind, idx);
        let ghost pre = *ind;
        remove_job_at(ind, r, pos);
        proof {
            assert forall|t: int| 0 <= t < ind.routes@.len() implies (
            #[trigger] ind.routes@[t])@.len() <= p.capacity by {
                if t != r {
                    assert(ind.routes@[t] == pre.routes@[t]);
                }
            }
        }
        k += 1;
    }
}

/// Removes a uniformly random subset of assigned jobs, sized by the removal
/// limit.
pub struct RandomJobRemoval {
    pub limit: RemovalLimit,
}

impl RandomJobRemoval {
    pub fn new(limit: RemovalLimit) -> (r: RandomJobRemoval)
        ensures
            r.limit == limit,
    {
        RandomJobRemoval { limit }
    }

    /// No job is created or lost; exactly the removal count moves to the
    /// unassigned list (all assigned jobs when fewer remain).
    pub fn run(&self, rng: &mut Rng, p: &Problem, ind: &mut Individual)
        requires
            p.wf(),
            old(ind).wf(*p),
            self.limit.wf(),
        ensures
            final(ind).wf(*p),
            final(ind).jobs() == old(ind).jobs(),
            final(ind).unassigned@.len() == old(ind).unassigned@.len()
                + self.limit.removal_count_spec(old(ind).assigned_len()),
    {
        proof {
            lemma_wf_route_jobs(*ind, *p);
        }
        let total = ind.count_assigned();
        let count = self.limit.removal_count(total);
        remove_random_jobs(rng, p, ind, count);
    }
}

/// Finds the assigned job nearest to `seed` by profile-0 cost and returns
/// its route and position.
fn locate_nearest_assigned(p: &Problem, ind: &Individual, seed: usize) -> (rp: (usize, usize))
    requires
        p.wf(),
        ind.wf(*p),
        ind.assigned_len() > 0,
        seed < p.n_jobs,
    ensures
        rp.0 < ind.routes@.len(),
        rp.1 < ind.routes@[rp.0 as int]@.len(),
{
    proof {
        lemma_wf_route_jobs(*ind, *p);
    }
    let m = &p.profiles[0];
    let mut found = false;
    let mut best_cost: u64 = 0;
    let mut best_r: usize = 0;
    let mut best_p: usize = 0;
    let mut r: usize = 0;
    while r < ind.routes.len()
        invariant
            r <= ind.routes@.len(),
            p.wf(),
            ind.wf(*p),
            seed < p.n_jobs,
            m == &p.profiles@[0],
            found ==> best_r < ind.routes@.len() && best_p < ind.routes@[best_r as int]@.len(),
            !found ==> routes_total_len(ind.routes_seq().take(r as int)) == 0,
        decreases ind.routes@.len() - r,
    {
        let mut q: usize = 0;
        while q < ind.routes[r].len()
            invariant
                r < ind.routes@.len(),
                q <= ind.routes@[r as int]@.len(),
                p.wf(),
                ind.wf(*p),
                seed < p.n_jobs,
                m == &p.profiles@[0],
                found ==> best_r < ind.routes@.len() && best_p < ind.routes@[best_r as int]@.len(),
                q > 0 ==> found,
                !found ==> routes_total_len(ind.routes_seq().take(r as int)) == 0,
            decreases ind.routes@[r as int]@.len() - q,
        {
            proof {
                lemma_wf_route_jobs(*ind, *p);
                assert(ind.routes_seq()[r as int][q as int] == ind.routes@[r as int]@[q as int]);
            }
            let job = ind.routes[r][q];
            let c = m.get(seed, job);
            if !found || c < best_cost {
                found = true;
                best_cost = c;
                best_r = r;
                best_p = q;
            }
            q += 1;
        }
        proof {
            if !found {
                assert(ind.routes_seq()[r as int] == ind.routes@[r as int]@);
                lemma_routes_total_len_take(ind.routes_seq(), r as int);
            }
        }
        r += 1;
    }
    proof {
        if !found {
            assert(ind.routes_seq().take(ind.routes_seq().len() as int) =~= ind.routes_seq());
        }
    }
    if !found {
        proof {
            assert(false);
        }
        return (0, 0);
    }
    (best_r, best_p)
}

/// Picks a random seed job and removes it together with its nearest
/// neighbors by cost, sized by the removal limit.
pub struct NeighbourRemoval {
    pub limit: RemovalLimit,
}

impl NeighbourRemoval {
    pub fn new(limit: RemovalLimit) -> (r: NeighbourRemoval)
        ensures
            r.limit == limit,
    {
        NeighbourRemoval { limit }
    }

    /// No job is created or lost; exactly the removal count moves to the
    /// unassigned list (all assigned jobs when fewer remain).
    pub fn run(&self, rng: &mut Rng, p: &Problem, ind: &mut Individual)
        requires
            p.wf(),
            old(ind).wf(*p),
            self.limit.wf(),
        ensures
            final(ind).wf(*p),
            final(ind).jobs() == old(ind).jobs(),
            final(ind).unassigned@.len() == old(ind).unassigned@.len()
                + self.limit.removal_count_spec(old(ind).assigned_len()),
    {
        proof {
            lemma_wf_route_jobs(*ind, *p);
        }
        let total = ind.count_assigned();
        let count = self.limit.removal_count(total);
        if count == 0 {
            return ;
        }
        // pick and remove the seed
        let idx = rng.below(total);
        let (r0, p0) = locate_assigned(ind, idx);
        proof {
            lemma_wf_route_jobs(*ind, *p);
            assert(ind.routes_seq()[r0 as int][p0 as int] == ind.routes@[r0 as int]@[p0 as int]);
        }
        let seed = ind.routes[r0][p0];
        let ghost pre = *ind;
        remove_job_at(ind, r0, p0);
        proof {
            assert forall|t: int| 0 <= t < ind.routes@.len() implies (
            #[trigger] ind.routes@[t])@.len() <= p.capacity by {
                if t != r0 {
                    assert(ind.routes@[t] == pre.routes@[t]);
                }
            }
        }
        // remove count - 1 nearest neighbors of the seed
        let mut k: usize = 1;
        while k < count
            invariant
                1 <= k <= count,
                p.wf(),
                ind.wf(*p),
                seed < p.n_jobs,
                ind.jobs() == old(ind).jobs(),
                count <= old(ind).assigned_len(),
                ind.assigned_len() == old(ind).assigned_len() - k,
                ind.unassigned@.len() == old(ind).unassigned@.len() + k,
            decreases count - k,
        {
            let (r, pos) = locate_nearest_assigned(p, ind, seed);
            let ghost pre2 = *ind;
            proof {
                lemma_wf_route_jobs(*ind, *p);
            }
            remove_job_at(ind, r, pos);
            proof {
                assert forall|t: int| 0 <= t < ind.routes@.len() implies (
                #[trigger] ind.routes@[t])@.len() <= p.capacity by {
                    if t != r {
                        assert(ind.routes@[t] == pre2.routes@[t]);
                    }
                }
            }
            k += 1;
        }
    }
}

/// Removes all work assigned to a random subset of routes; the subset size
/// is governed by its own min/max/threshold over the route count.
pub struct RandomRouteRemoval {
    pub limit: RemovalLimit,
}

impl RandomRouteRemoval {
    pub fn new(min: usize, max: usize, threshold_permille: u32) -> (r: RandomRouteRemoval)
        requires
            min <= max,
            threshold_permille <= 1000,
        ensures
            r.limit == (RemovalLimit { min, max, threshold_permille }),
            r.limit.wf(),
    {
        RandomRouteRemoval { limit: RemovalLimit { min, max, threshold_permille } }
    }

    /// No job is created or lost; the removal-count many distinct chosen
    /// routes are left empty, their jobs moved to the unassigned list.
    pub fn run(&self, rng: &mut Rng, p: &Problem, ind: &mut Individual)
        requires
            p.wf(),
            old(ind).wf(*p),
            self.limit.wf(),
        ensures
            final(ind).wf(*p),
            final(ind).jobs() == old(ind).jobs(),
            final(ind).unassigned@.len() >= old(ind).unassigned@.len(),
            exists|picked: Seq<int>|
                picked.no_duplicates() && picked.len() == self.limit.removal_count_spec(
                    p.n_routes as int,
                ) && (forall|t: int|
                    0 <= t < picked.len() ==> 0 <= #[trigger] picked[t] < p.n_routes
                        && final(ind).routes@[picked[t]]@.len() == 0) && (forall|r2: int|
                    0 <= r2 < p.n_routes && !picked.contains(r2) ==> final(ind).routes@[r2] == old(
                        ind,
                    ).routes@[r2]),
    {
        let route_count = self.limit.removal_count(p.n_routes);
        // a shuffled list of route indices; the first `route_count` lose
        // their jobs
        let mut order: Vec<usize> = Vec::new();
        let mut t: usize = 0;
        while t < p.n_routes
            invariant
                t <= p.n_routes,
                order@.len() == t,
                forall|i: int| 0 <= i < t ==> (#[trigger] order@[i]) == i,
            decreases p.n_routes - t,
        {
            order.push(t);
            t += 1;
        }
        let ghost before_shuffle = order@;
        proof {
            assert(before_shuffle.no_duplicates());
        }
        crate::rng::shuffle_vec(rng, &mut order);
        proof {
            broadcast use vstd::seq_lib::group_to_multiset_ensures;

            assert forall|i: int| 0 <= i < order@.len() implies (#[trigger] order@[i])
                < p.n_routes by {
                assert(order@.contains(order@[i]));
                assert(order@.to_multiset().count(order@[i]) > 0);
                assert(before_shuffle.to_multiset().count(order@[i]) > 0);
                assert(before_shuffle.contains(order@[i]));
            }
            before_shuffle.lemma_multiset_has_no_duplicates();
            order@.lemma_multiset_has_no_duplicates_conv();
        }
        let mut k: usize = 0;
        while k < route_count
            invariant
                k <= route_count,
                route_count <= p.n_routes,
                route_count == self.limit.removal_count_spec(p.n_routes as int),
                p.wf(),
                ind.wf(*p),
                ind.jobs() == old(ind).jobs(),
                ind.unassigned@.len() >= old(ind).unassigned@.len(),
                order@.len() == p.n_routes,
                order@.no_duplicates(),
                forall|i: int| 0 <= i < order@.len() ==> (#[trigger] order@[i]) < p.n_routes,
                forall|t: int| 0 <= t < k ==> ind.routes@[#[trigger] order@[t] as int]@.len() == 0,
                forall|r2: int|
                    0 <= r2 < p.n_routes && (forall|t: int|
                        0 <= t < k ==> (#[trigger] order@[t]) as int != r2) ==> #[trigger] ind.routes@[r2]
                        == old(ind).routes@[r2],
            decreases route_count - k,
        {
            let r = order[k];
            let ghost pre = *ind;
            clear_route(p, ind, r);
            proof {
                assert forall|t: int| 0 <= t < k + 1 implies ind.routes@[#[trigger] order@[t] as int]@.len()
                    == 0 by {
                    if t < k {
                        assert(order@[t] != order@[k as int]);
                        assert(ind.routes@[order@[t] as int] == pre.routes@[order@[t] as int]);
                    }
                }
                assert forall|r2: int|
                    0 <= r2 < p.n_routes && (forall|t: int|
                        0 <= t < k + 1 ==> (#[trigger] order@[t]) as int != r2) implies #[trigger] ind.routes@[r2]
                    == old(ind).routes@[r2] by {
                    assert((order@[k as int]) as int != r2);
                    assert(ind.routes@[r2] == pre.routes@[r2]);
                }
            }
            k += 1;
        }
        proof {
            let picked = Seq::new(route_count as nat, |t: int| order@[t] as int);
            assert(picked.no_duplicates()) by {
                assert forall|a: int, b: int|
                    0 <= a < picked.len() && 0 <= b < picked.len() && a != b implies picked[a]
                    != picked[b] by {
                    assert(order@[a] != order@[b]);
                }
            }
            assert(forall|t: int|
                0 <= t < picked.len() ==> 0 <= #[trigger] picked[t] < p.n_routes && ind.routes@[picked[t]]@.len()
                    == 0);
            assert forall|r2: int|
                0 <= r2 < p.n_routes && !picked.contains(r2) implies ind.routes@[r2] == old(
                ind,
            ).routes@[r2] by {
                assert forall|t: int| 0 <= t < route_count implies (#[trigger] order@[t]) as int
                    != r2 by {
                    if (order@[t]) as int == r2 {
                        assert(picked[t] == r2);
                        assert(picked.contains(r2));
                    }
                }
            }
        }
    }
}

/// Moves every job of route `r` to the unassigned list.
fn clear_route(p: &Problem, ind: &mut Individual, r: usize)
    requires
        p.wf(),
        old(ind).wf(*p),
        r < old(ind).routes@.len(),
    ensures
        final(ind).wf(*p),
        final(ind).jobs() == old(ind).jobs(),
        final(ind).unassigned@.len() == old(ind).unassigned@.len() + old(ind).routes@[r as int]@.len(),
        final(ind).routes@[r as int]@.len() == 0,
        forall|i: int|
            0 <= i < old(ind).routes@.len() && i != r ==> final(ind).routes@[i] == old(
                ind,
            ).routes@[i],
{
    proof {
        lemma_wf_route_jobs(*ind, *p);
    }
    let mut moved: usize = 0;
    let ghost initial_len = ind.routes@[r as int]@.len();
    proof {
        assert(initial_len <= crate::model::MAX_JOBS);
    }
    while ind.routes[r].len() > 0
        invariant
            p.wf(),
            ind.wf(*p),
            r < ind.routes@.len(),
            ind.jobs() == old(ind).jobs(),
            initial_len <= crate::model::MAX_JOBS,
            moved + ind.routes@[r as int]@.len() == initial_len,
            ind.unassigned@.len() == old(ind).unassigned@.len() + moved,
            forall|i: int|
                0 <= i < ind.routes@.len() && i != r ==> ind.routes@[i] == old(ind).routes@[i],
        decreases ind.routes@[r as int]@.len(),
    {
        proof {
            lemma_wf_route_jobs(*ind, *p);
        }
        let ghost pre = *ind;
        remove_job_at(ind, r, 0);
        proof {
            assert forall|t: int| 0 <= t < ind.routes@.len() implies (
            #[trigger] ind.routes@[t])@.len() <= p.capacity by {
                if t != r {
                    assert(ind.routes@[t] == pre.routes@[t]);
                }
            }
        }
        moved += 1;
    }
}

/// Ranks assigned jobs by the cost saved when they are removed, skips the
/// `skip` highest savings, and removes from the remainder per the limit.
pub struct WorstJobRemoval {
    pub skip: usize,
    pub limit: RemovalLimit,
}

impl WorstJobRemoval {
    pub fn new(skip: usize, limit: RemovalLimit) -> (r: WorstJobRemoval)
        ensures
            r.skip == skip,
            r.limit == limit,
    {
        WorstJobRemoval { skip, limit }
    }

    /// No job is created or lost.  Ranking is by cost saved; after skipping
    /// the `skip` highest savings, exactly the removal count moves to the
    /// unassigned list (all the remaining assigned jobs when fewer remain).
    pub fn run(&self, rng: &mut Rng, p: &Problem, ind: &mut Individual)
        requires
            p.wf(),
            old(ind).wf(*p),
            self.limit.wf(),
        ensures
            final(ind).wf(*p),
            final(ind).jobs() == old(ind).jobs(),
            final(ind).unassigned@.len() == old(ind).unassigned@.len() + ({
                let a = old(ind).assigned_len();
                let c = self.limit.removal_count_spec(a);
                let avail = if a > self.skip {
                    a - self.skip
                } else {
                    0int
                };
                if c < avail {
                    c
                } else {
                    avail
                }
            }),
    {
        proof {
            lemma_wf_route_jobs(*ind, *p);
        }
        let total = ind.count_assigned();
        let count = self.limit.removal_count(total);
        let mut ranked = rank_by_savings(p, ind);
        let ghost pre_sort = ranked@;
        sort_pairs(&mut ranked);
        let ghost pl = crate::sorting::payloads(ranked@);
        proof {
            broadcast use vstd::seq_lib::group_to_multiset_ensures;

            crate::sorting::lemma_payload_multiset(pre_sort, ranked@);
            // the payloads are exactly the assigned jobs, each once
            lemma_wf_route_jobs(*ind, *p);
            crate::model::lemma_routes_ms_len(ind.routes_seq());
            vstd::seq_lib::to_multiset_len(pl);
            assert(pl.len() == ind.assigned_len());
            assert forall|x: usize|
                pl.to_multiset().contains(x) implies pl.to_multiset().count(x) == 1 by {
                assert(routes_ms(ind.routes_seq()).count(x) >= 1);
                assert(ind.jobs().count(x) >= 1);
                crate::model::lemma_full_jobs_count(p.n_jobs as int, x);
                assert(ind.jobs().count(x) <= 1);
                assert(routes_ms(ind.routes_seq()).count(x) <= 1);
            }
            pl.lemma_multiset_has_no_duplicates_conv();
            assert forall|t: int| 0 <= t < pl.len() implies routes_ms(ind.routes_seq()).count(
                #[trigger] pl[t],
            ) >= 1 by {
                assert(pl.contains(pl[t]));
                assert(pl.to_multiset().count(pl[t]) >= 1);
            }
        }
        // walk from the highest savings down, skipping the first `skip`
        let len = ranked.len();
        let mut taken: usize = 0;
        let mut skipped: usize = 0;
        let mut i: usize = len;
        while i > 0
            invariant
                i <= len,
                len == ranked@.len(),
                len == old(ind).assigned_len(),
                p.wf(),
                ind.wf(*p),
                ind.jobs() == old(ind).jobs(),
                count == self.limit.removal_count_spec(old(ind).assigned_len()),
                count <= len,
                pl == crate::sorting::payloads(ranked@),
                pl.no_duplicates(),
                forall|t: int|
                    0 <= t < i ==> routes_ms(ind.routes_seq()).count(#[trigger] pl[t]) >= 1,
                skipped == (if self.skip <= len - i {
                    self.skip as int
                } else {
                    len - i
                }),
                taken == (if count <= (len - i) - skipped {
                    count as int
                } else {
                    (len - i) - skipped
                }),
                ind.unassigned@.len() == old(ind).unassigned@.len() + taken,
            decreases i,
        {
            i -= 1;
            if skipped < self.skip {
                skipped += 1;
            } else if taken < count {
                let job = ranked[i].1;
                proof {
                    assert(pl[i as int] == job);
                }
                let ghost pre = *ind;
                let ok = remove_by_id(p, ind, job);
                proof {
                    broadcast use vstd::seq_lib::group_to_multiset_ensures;

                    assert(routes_ms(pre.routes_seq()).count(job) >= 1);
                    assert(ok);
                    assert forall|t: int|
                        0 <= t < i implies routes_ms(ind.routes_seq()).count(#[trigger] pl[t])
                        >= 1 by {
                        assert(pl[t] != pl[i as int]);
                        assert(ind.unassigned@ =~= pre.unassigned@.push(job));
                        assert(ind.unassigned@.to_multiset() =~= pre.unassigned@.to_multiset().insert(
                            job,
                        ));
                        assert(ind.unassigned@.to_multiset().count(pl[t])
                            == pre.unassigned@.to_multiset().count(pl[t]));
                        assert(ind.jobs().count(pl[t]) == routes_ms(ind.routes_seq()).count(pl[t])
                            + ind.unassigned@.to_multiset().count(pl[t]));
                        assert(pre.jobs().count(pl[t]) == routes_ms(pre.routes_seq()).count(pl[t])
                            + pre.unassigned@.to_multiset().count(pl[t]));
                    }
                }
                taken += 1;
            }
        }
        // this strategy is deterministic; the random source is only part
        // of the shared strategy signature
        let _ = rng;
    }
}

/// The cost saved by removing each assigned job: for the job at position
/// `q` of route `r`, the cost of the route minus the cost of the route
/// without the job (zero when the removal would not make it cheaper).  The
/// returned payloads are exactly the assigned jobs, as a multiset.
fn rank_by_savings(p: &Problem, ind: &Individual) -> (r: Vec<(u64, usize)>)
    requires
        p.wf(),
        ind.wf(*p),
    ensures
        forall|i: int| 0 <= i < r@.len() ==> ((#[trigger] r@[i]).1 as int) < p.n_jobs,
        crate::sorting::payloads(r@).to_multiset() == routes_ms(ind.routes_seq()),
{
    proof {
        lemma_wf_route_jobs(*ind, *p);
        broadcast use vstd::seq_lib::group_to_multiset_ensures;

        assert(ind.routes_seq().take(0) =~= Seq::<Seq<usize>>::empty());
        assert(crate::sorting::payloads(Seq::<(u64, usize)>::empty()).len() == 0);
        assert forall|y: usize|
            crate::sorting::payloads(Seq::<(u64, usize)>::empty()).to_multiset().count(y)
                == 0int by {
            assert(!crate::sorting::payloads(Seq::<(u64, usize)>::empty()).contains(y));
        }
    }
    let m = &p.profiles[0];
    let mut out: Vec<(u64, usize)> = Vec::new();
    let mut r: usize = 0;
    while r < ind.routes.len()
        invariant
            r <= ind.routes@.len(),
            p.wf(),
            ind.wf(*p),
            m == &p.profiles@[0],
            forall|i: int| 0 <= i < out@.len() ==> ((#[trigger] out@[i]).1 as int) < p.n_jobs,
            crate::sorting::payloads(out@).to_multiset() =~= routes_ms(
                ind.routes_seq().take(r as int),
            ),
        decreases ind.routes@.len() - r,
    {
        proof {
            lemma_wf_route_jobs(*ind, *p);
            assert(ind.routes@[r as int]@ == ind.routes_seq()[r as int]);
            broadcast use vstd::seq_lib::group_to_multiset_ensures;

            assert(ind.routes_seq()[r as int].take(0) =~= Seq::<usize>::empty());
            assert forall|y: usize| Seq::<usize>::empty().to_multiset().count(y) == 0int by {
                assert(!Seq::<usize>::empty().contains(y));
            }
        }
        let full = crate::model::route_cost(&ind.routes[r], m, Ghost(p.n_jobs as int));
        let mut q: usize = 0;
        while q < ind.routes[r].len()
            invariant
                r < ind.routes@.len(),
                q <= ind.routes@[r as int]@.len(),
                p.wf(),
                ind.wf(*p),
                m == &p.profiles@[0],
                full == crate::model::route_cost_spec(ind.routes_seq()[r as int], p.profiles@[0]),
                forall|i: int| 0 <= i < out@.len() ==> ((#[trigger] out@[i]).1 as int) < p.n_jobs,
                crate::sorting::payloads(out@).to_multiset() =~= routes_ms(
                    ind.routes_seq().take(r as int),
                ).add(ind.routes_seq()[r as int].take(q as int).to_multiset()),
            decreases ind.routes@[r as int]@.len() - q,
        {
            proof {
                lemma_wf_route_jobs(*ind, *p);
                assert(ind.routes_seq()[r as int][q as int] == ind.routes@[r as int]@[q as int]);
            }
            let job = ind.routes[r][q];
            let mut without: Vec<usize> = Vec::new();
            let mut t: usize = 0;
            while t < ind.routes[r].len()
                invariant
                    r < ind.routes@.len(),
                    q < ind.routes@[r as int]@.len(),
                    t <= ind.routes@[r as int]@.len(),
                    p.wf(),
                    ind.wf(*p),
                    without@.len() <= t,
                    forall|i: int|
                        0 <= i < without@.len() ==> ((#[trigger] without@[i]) as int) < p.n_jobs,
                decreases ind.routes@[r as int]@.len() - t,
            {
                proof {
                    lemma_wf_route_jobs(*ind, *p);
                    assert(ind.routes_seq()[r as int][t as int] == ind.routes@[r as int]@[t as int]);
                }
                if t != q {
                    without.push(ind.routes[r][t]);
                }
                t += 1;
            }
            proof {
                lemma_wf_route_jobs(*ind, *p);
                assert(ind.routes@[r as int]@.len() <= crate::model::MAX_JOBS);
            }
            let reduced = crate::model::route_cost(&without, m, Ghost(p.n_jobs as int));
            let saved = if full > reduced {
                full - reduced
            } else {
                0
            };
            let ghost pre_out = out@;
            out.push((saved, job));
            proof {
                broadcast use vstd::seq_lib::group_to_multiset_ensures;

                let rsr = ind.routes_seq()[r as int];
                assert(crate::sorting::payloads(out@) =~= crate::sorting::payloads(pre_out).push(
                    job,
                ));
                assert(crate::sorting::payloads(out@).to_multiset() =~= crate::sorting::payloads(
                    pre_out,
                ).to_multiset().insert(job));
                assert(rsr.take(q as int + 1) =~= rsr.take(q as int).push(job));
                assert(rsr.take(q as int + 1).to_multiset() =~= rsr.take(
                    q as int,
                ).to_multiset().insert(job));
                assert forall|y: usize|
                    crate::sorting::payloads(out@).to_multiset().count(y) == routes_ms(
                        ind.routes_seq().take(r as int),
                    ).add(rsr.take(q as int + 1).to_multiset()).count(y) by {}
            }
            q += 1;
        }
        proof {
            broadcast use vstd::seq_lib::group_to_multiset_ensures;

            let rs = ind.routes_seq();
            let rsr = rs[r as int];
            assert(rsr.take(rsr.len() as int) =~= rsr);
            assert(rs.take(r as int + 1) =~= rs.take(r as int).push(rsr));
            crate::model::lemma_routes_ms_push(rs.take(r as int), rsr);
            assert forall|y: usize|
                crate::sorting::payloads(out@).to_multiset().count(y) == routes_ms(
                    rs.take(r as int + 1),
                ).count(y) by {}
        }
        r += 1;
    }
    proof {
        assert(ind.routes_seq().take(ind.routes_seq().len() as int) =~= ind.routes_seq());
    }
    out
}

/// Removes the given job wherever it is assigned; succeeds exactly when the
/// job sits in some route.
pub(crate) fn remove_by_id(p: &Problem, ind: &mut Individual, job: usize) -> (r: bool)
    requires
        p.wf(),
        old(ind).wf(*p),
    ensures
        final(ind).wf(*p),
        final(ind).jobs() == old(ind).jobs(),
        r ==> final(ind).unassigned@ == old(ind).unassigned@.push(job),
        !r ==> *final(ind) == *old(ind),
        r == (routes_ms(old(ind).routes_seq()).count(job) >= 1),
{
    proof {
        broadcast use vstd::seq_lib::group_to_multiset_ensures;

        assert(ind.routes_seq().take(0) =~= Seq::<Seq<usize>>::empty());
    }
    let mut r: usize = 0;
    while r < ind.routes.len()
        invariant
            r <= ind.routes@.len(),
            p.wf(),
            ind.wf(*p),
            ind == old(ind),
            routes_ms(ind.routes_seq().take(r as int)).count(job) == 0,
        decreases ind.routes@.len() - r,
    {
        let mut q: usize = 0;
        while q < ind.routes[r].len()
            invariant
                r < ind.routes@.len(),
                q <= ind.routes@[r as int]@.len(),
                p.wf(),
                ind.wf(*p),
                ind == old(ind),
                routes_ms(ind.routes_seq().take(r as int)).count(job) == 0,
                forall|t: int| 0 <= t < q ==> (#[trigger] ind.routes@[r as int]@[t]) != job,
            decreases ind.routes@[r as int]@.len() - q,
        {
            if ind.routes[r][q] == job {
                proof {
                    lemma_wf_route_jobs(*ind, *p);
                    crate::model::lemma_routes_ms_member(ind.routes_seq(), r as int, q as int);
                    assert(ind.routes_seq()[r as int][q as int] == job);
                }
                let ghost pre = *ind;
                remove_job_at(ind, r, q);
                proof {
                    assert forall|t: int| 0 <= t < ind.routes@.len() implies (
                    #[trigger] ind.routes@[t])@.len() <= p.capacity by {
                        if t != r {
                            assert(ind.routes@[t] == pre.routes@[t]);
                        }
                    }
                }
                return true;
            }
            q += 1;
        }
        proof {
            broadcast use vstd::seq_lib::group_to_multiset_ensures;

            let rs = ind.routes_seq();
            assert(rs[r as int] == ind.routes@[r as int]@);
            assert(!rs[r as int].contains(job));
            assert(rs[r as int].to_multiset().count(job) == 0);
            assert(rs.take(r as int + 1) =~= rs.take(r as int).push(rs[r as int]));
            crate::model::lemma_routes_ms_push(rs.take(r as int), rs[r as int]);
        }
        r += 1;
    }
    proof {
        assert(ind.routes_seq().take(ind.routes_seq().len() as int) =~= ind.routes_seq());
    }
    false
}

/// Removes contiguous route segments ("strings").  `lmax` caps the string
/// length, `cavg` governs how many strings are removed, and `alpha` (in
/// thousandths) is the geometric decay of the string-length draw.
pub struct AdjustedStringRemoval {
    pub lmax: usize,
    pub cavg: usize,
    pub alpha_permille: u32,
}

impl AdjustedStringRemoval {
    pub fn new(lmax: usize, cavg: usize, alpha_permille: u32) -> (r: AdjustedStringRemoval)
        ensures
            r == (AdjustedStringRemoval { lmax, cavg, alpha_permille }),
    {
        AdjustedStringRemoval { lmax, cavg, alpha_permille }
    }

    /// No job is created or lost; whole segments move to the unassigned
    /// list: at least one job when any is assigned, and at most one string
    /// of at most `lmax` jobs per drawn string count.
    pub fn run(&self, rng: &mut Rng, p: &Problem, ind: &mut Individual)
        requires
            p.wf(),
            old(ind).wf(*p),
        ensures
            final(ind).wf(*p),
            final(ind).jobs() == old(ind).jobs(),
            final(ind).unassigned@.len() >= old(ind).unassigned@.len(),
            old(ind).assigned_len() > 0 ==> final(ind).unassigned@.len() > old(
                ind,
            ).unassigned@.len(),
            final(ind).unassigned@.len() <= old(ind).unassigned@.len() + (if self.cavg == 0 {
                1int
            } else {
                self.cavg as int
            }) * (if self.lmax == 0 {
                1int
            } else {
                self.lmax as int
            }),
    {
        let ghost cbound: int = if self.cavg == 0 {
            1int
        } else {
            self.cavg as int
        };
        let ghost lbound: int = if self.lmax == 0 {
            1int
        } else {
            self.lmax as int
        };
        let strings = 1 + rng.below(if self.cavg == 0 {
            1
        } else {
            self.cavg
        });
        let mut s: usize = 0;
        while s < strings
            invariant
                p.wf(),
                ind.wf(*p),
                ind.jobs() == old(ind).jobs(),
                old(ind).wf(*p),
                cbound == (if self.cavg == 0 {
                    1int
                } else {
                    self.cavg as int
                }),
                lbound == (if self.lmax == 0 {
                    1int
                } else {
                    self.lmax as int
                }),
                strings <= cbound,
                s <= strings,
                ind.unassigned@.len() >= old(ind).unassigned@.len(),
                ind.unassigned@.len() <= old(ind).unassigned@.len() + s * lbound,
                s == 0 ==> ind.unassigned@.len() == old(ind).unassigned@.len(),
                s >= 1 && old(ind).assigned_len() > 0 ==> ind.unassigned@.len() > old(
                    ind,
                ).unassigned@.len(),
            decreases strings - s,
        {
            proof {
                lemma_wf_route_jobs(*ind, *p);
            }
            let total = ind.count_assigned();
            if total == 0 {
                // nothing is assigned any more; with work assigned at entry
                // this can only happen after a removal already took place
                proof {
                    if old(ind).assigned_len() > 0 && s == 0 {
                        lemma_wf_route_jobs(*old(ind), *p);
                        assert(ind.jobs().len() == old(ind).jobs().len());
                        assert(false);
                    }
                    assert(s * lbound <= cbound * lbound) by (nonlinear_arith)
                        requires
                            0 <= s <= cbound,
                            lbound >= 0,
                    ;
                }
                return ;
            }
            // seed of the string
            let idx = rng.below(total);
            let (r, pos) = locate_assigned(ind, idx);
            // geometric string length, capped by lmax
            let mut l: usize = 1;
            while l < self.lmax && rng.permille() < self.alpha_permille
                invariant
                    l >= 1,
                    l <= lbound,
                    lbound == (if self.lmax == 0 {
                        1int
                    } else {
                        self.lmax as int
                    }),
                decreases self.lmax - l,
            {
                l += 1;
            }
            // the string starts at a random offset before the seed
            let offset = if pos == 0 {
                0
            } else {
                rng.below(if l < pos + 1 {
                    l
                } else {
                    pos + 1
                })
            };
            let start = pos - offset;
            // the seed's segment holds at least one job: remove it first,
            // then extend the string while it lasts
            let ghost pre0 = *ind;
            let ghost iter_un = ind.unassigned@.len() as int;
            remove_job_at(ind, r, start);
            proof {
                assert forall|t: int| 0 <= t < ind.routes@.len() implies (
                #[trigger] ind.routes@[t])@.len() <= p.capacity by {
                    if t != r {
                        assert(ind.routes@[t] == pre0.routes@[t]);
                    }
                }
            }
            let mut removed: usize = 1;
            while removed < l && start < ind.routes[r].len()
                invariant
                    p.wf(),
                    ind.wf(*p),
                    r < ind.routes@.len(),
                    ind.jobs() == old(ind).jobs(),
                    ind.unassigned@.len() > old(ind).unassigned@.len(),
                    1 <= removed <= l,
                    l <= lbound,
                    lbound >= 1,
                    ind.unassigned@.len() == iter_un + removed,
                decreases l - removed,
            {
                proof {
                    lemma_wf_route_jobs(*ind, *p);
                }
                let ghost pre = *ind;
                remove_job_at(ind, r, start);
                proof {
                    assert forall|t: int| 0 <= t < ind.routes@.len() implies (
                    #[trigger] ind.routes@[t])@.len() <= p.capacity by {
                        if t != r {
                            assert(ind.routes@[t] == pre.routes@[t]);
                        }
                    }
                }
                removed += 1;
            }
            proof {
                assert((s + 1) * lbound == s * lbound + lbound) by (nonlinear_arith);
            }
            s += 1;
        }
        proof {
            assert(s * lbound <= cbound * lbound) by (nonlinear_arith)
                requires
                    0 <= s <= cbound,
                    lbound >= 0,
            ;
        }
    }
}

} // verus!
