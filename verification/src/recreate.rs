//! Recreate strategies: operators that reinsert unassigned jobs.
//!
//! Every strategy is total: it never fails, it never loses or duplicates a
//! job, and the number of unassigned jobs never grows.  A job stays
//! unassigned only when no route has capacity left, so whenever the fleet
//! can hold every job (`n_jobs <= n_routes * capacity`) a recreate call
//! leaves nothing unassigned.

use vstd::prelude::*;
use crate::model::{Problem, Matrix, Individual, insert_job_at, route_cost_spec, route_cost, routes_total_len, lemma_wf_route_jobs, lemma_route_cost_bound, MAX_JOBS, MAX_COST};
use crate::rng::Rng;

verus! {

/// The cost change of inserting job `j` at position `pos` of route `r`.
pub open spec fn delta_spec(ind: Individual, m: Matrix, r: int, pos: int, j: usize) -> int {
    route_cost_spec(ind.routes_seq()[r].insert(pos, j), m) - route_cost_spec(
        ind.routes_seq()[r],
        m,
    )
}

/// A position where an insertion is allowed by the capacity constraint.
pub open spec fn pos_feasible(ind: Individual, p: Problem, r: int, pos: int) -> bool {
    &&& 0 <= r < ind.routes@.len()
    &&& 0 <= pos <= ind.routes@[r]@.len()
    &&& ind.routes@[r]@.len() < p.capacity
}

/// All routes are full: no feasible insertion position exists.
pub open spec fn all_routes_full(ind: Individual, p: Problem) -> bool {
    forall|r: int| 0 <= r < ind.routes@.len() ==> (#[trigger] ind.routes@[r])@.len() >= p.capacity
}

/// One route's length never exceeds the total assigned length.
proof fn lemma_route_len_le_total(rs: Seq<Seq<usize>>, r: int)
    requires
        0 <= r < rs.len(),
    ensures
        rs[r].len() <= routes_total_len(rs),
    decreases r,
{
    crate::model::lemma_routes_total_len_prefix(rs, 0);
    if r == 0 {
        crate::model::lemma_routes_total_len_prefix(rs.drop_first(), 0);
    } else {
        lemma_route_len_le_total(rs.drop_first(), r - 1);
    }
}

/// When every route has the same length, the total is their product.
proof fn lemma_routes_total_len_const(rs: Seq<Seq<usize>>, c: int)
    requires
        forall|r: int| 0 <= r < rs.len() ==> (#[trigger] rs[r]).len() == c,
    ensures
        routes_total_len(rs) == rs.len() * c,
    decreases rs.len(),
{
    if rs.len() == 0 {
    } else {
        lemma_routes_total_len_const(rs.drop_first(), c);
        assert((rs.len() - 1) * c + c == rs.len() * c) by (nonlinear_arith);
    }
}

/// A copy of `route` with `j` inserted at `pos`.
fn insert_copy(route: &Vec<usize>, pos: usize, j: usize) -> (r: Vec<usize>)
    requires
        pos <= route@.len(),
        route@.len() < usize::MAX,
    ensures
        r@ == route@.insert(pos as int, j),
{
    let mut out: Vec<usize> = Vec::new();
    let mut t: usize = 0;
    while t < pos
        invariant
            t <= pos <= route@.len(),
            out@ =~= route@.take(t as int),
        decreases pos - t,
    {
        out.push(route[t]);
        t += 1;
    }
    out.push(j);
    while t < route.len()
        invariant
            pos <= t <= route@.len(),
            out@ =~= route@.take(pos as int).push(j) + route@.subrange(pos as int, t as int),
        decreases route@.len() - t,
    {
        out.push(route[t]);
        t += 1;
    }
    proof {
        assert(out@ =~= route@.insert(pos as int, j));
    }
    out
}

/// Facts needed to evaluate an insertion of `j` into route `r` of a
/// candidate that still has an unassigned job.
proof fn lemma_insertion_eval(ind: Individual, p: Problem, r: int, j: usize)
    requires
        p.wf(),
        ind.wf(p),
        ind.unassigned@.len() >= 1,
        0 <= r < ind.routes@.len(),
    ensures
        ind.routes@[r]@.len() + 1 <= MAX_JOBS,
        ind.routes@[r]@ == ind.routes_seq()[r],
        forall|i: int|
            0 <= i < ind.routes_seq()[r].len() ==> ((#[trigger] ind.routes_seq()[r][i]) as int)
                < p.n_jobs,
{
    lemma_wf_route_jobs(ind, p);
    lemma_route_len_le_total(ind.routes_seq(), r);
}

/// Finds the feasible insertion position for `j` with the least cost change
/// under profile 0; ties go to the first position in route-then-position
/// order.  Returns nothing exactly when every route is full.
pub fn find_best_insertion(p: &Problem, ind: &Individual, j: usize) -> (res: Option<
    (usize, usize),
>)
    requires
        p.wf(),
        ind.wf(*p),
        ind.unassigned@.len() >= 1,
        j < p.n_jobs,
    ensures
        res matches Some(rp) ==> pos_feasible(*ind, *p, rp.0 as int, rp.1 as int) && forall|
            r2: int,
            p2: int,
        |
            pos_feasible(*ind, *p, r2, p2) ==> delta_spec(
                *ind,
                p.profiles@[0],
                rp.0 as int,
                rp.1 as int,
                j,
            ) <= delta_spec(*ind, p.profiles@[0], r2, p2, j),
        res is None <==> all_routes_full(*ind, *p),
{
    proof {
        lemma_wf_route_jobs(*ind, *p);
    }
    let m = &p.profiles[0];
    let mut found = false;
    let mut best_r: usize = 0;
    let mut best_p: usize = 0;
    let mut best_d: i128 = 0;
    let mut r: usize = 0;
    while r < ind.routes.len()
        invariant
            r <= ind.routes@.len(),
            p.wf(),
            ind.wf(*p),
            ind.unassigned@.len() >= 1,
            j < p.n_jobs,
            m == &p.profiles@[0],
            found ==> pos_feasible(*ind, *p, best_r as int, best_p as int) && best_d == delta_spec(
                *ind,
                p.profiles@[0],
                best_r as int,
                best_p as int,
                j,
            ),
            found ==> forall|r2: int, p2: int|
                r2 < r && pos_feasible(*ind, *p, r2, p2) ==> best_d <= delta_spec(
                    *ind,
                    p.profiles@[0],
                    r2,
                    p2,
                    j,
                ),
            !found ==> forall|r2: int|
                0 <= r2 < r ==> (#[trigger] ind.routes@[r2])@.len() >= p.capacity,
        decreases ind.routes@.len() - r,
    {
        if ind.routes[r].len() < p.capacity {
            proof {
                lemma_insertion_eval(*ind, *p, r as int, j);
                lemma_route_cost_bound(ind.routes_seq()[r as int], p.profiles@[0], p.n_jobs as int);
            }
            let old_cost = route_cost(&ind.routes[r], m, Ghost(p.n_jobs as int));
            let len = ind.routes[r].len();
            let mut pos: usize = 0;
            while pos <= len
                invariant
                    pos <= len + 1,
                    len == ind.routes@[r as int]@.len(),
                    len < p.capacity,
                    r < ind.routes@.len(),
                    p.wf(),
                    ind.wf(*p),
                    ind.unassigned@.len() >= 1,
                    j < p.n_jobs,
                    m == &p.profiles@[0],
                    old_cost == route_cost_spec(ind.routes_seq()[r as int], p.profiles@[0]),
                    found ==> pos_feasible(*ind, *p, best_r as int, best_p as int) && best_d
                        == delta_spec(*ind, p.profiles@[0], best_r as int, best_p as int, j),
                    found ==> forall|r2: int, p2: int|
                        (r2 < r || (r2 == r && p2 < pos)) && pos_feasible(*ind, *p, r2, p2)
                            ==> best_d <= delta_spec(*ind, p.profiles@[0], r2, p2, j),
                    !found ==> forall|r2: int|
                        0 <= r2 < r ==> (#[trigger] ind.routes@[r2])@.len() >= p.capacity,
                    !found ==> pos == 0,
                decreases len + 1 - pos,
            {
                proof {
                    lemma_insertion_eval(*ind, *p, r as int, j);
                }
                let cand = insert_copy(&ind.routes[r], pos, j);
                proof {
                    lemma_route_cost_bound(cand@, p.profiles@[0], p.n_jobs as int);
                    lemma_route_cost_bound(
                        ind.routes_seq()[r as int],
                        p.profiles@[0],
                        p.n_jobs as int,
                    );
                }
                let new_cost = route_cost(&cand, m, Ghost(p.n_jobs as int));
                let d: i128 = new_cost as i128 - old_cost as i128;
                proof {
                    assert(cand@ == ind.routes_seq()[r as int].insert(pos as int, j));
                    assert(d == delta_spec(*ind, p.profiles@[0], r as int, pos as int, j));
                }
                if !found || d < best_d {
                    found = true;
                    best_r = r;
                    best_p = pos;
                    best_d = d;
                }
                pos += 1;
            }
        }
        r += 1;
    }
    if found {
        Some((best_r, best_p))
    } else {
        proof {
            assert(all_routes_full(*ind, *p));
        }
        None
    }
}

/// Inserts the unassigned job at `u_idx` at its cheapest feasible position.
/// Fails (leaving the candidate unchanged) exactly when every route is full.
pub fn insert_cheapest(p: &Problem, ind: &mut Individual, u_idx: usize) -> (ok: bool)
    requires
        p.wf(),
        old(ind).wf(*p),
        u_idx < old(ind).unassigned@.len(),
    ensures
        final(ind).wf(*p),
        final(ind).jobs() == old(ind).jobs(),
        ok ==> final(ind).unassigned@.len() == old(ind).unassigned@.len() - 1,
        !ok ==> *final(ind) == *old(ind) && all_routes_full(*old(ind), *p),
{
    proof {
        lemma_wf_route_jobs(*ind, *p);
    }
    let j = ind.unassigned[u_idx];
    match find_best_insertion(p, ind, j) {
        Some((r, pos)) => {
            do_insert(p, ind, r, pos, u_idx);
            true
        },
        None => false,
    }
}

/// Performs one feasible insertion, keeping the candidate well-formed.
pub fn do_insert(p: &Problem, ind: &mut Individual, r: usize, pos: usize, u_idx: usize)
    requires
        p.wf(),
        old(ind).wf(*p),
        u_idx < old(ind).unassigned@.len(),
        pos_feasible(*old(ind), *p, r as int, pos as int),
    ensures
        final(ind).wf(*p),
        final(ind).jobs() == old(ind).jobs(),
        final(ind).unassigned@.len() == old(ind).unassigned@.len() - 1,
{
    proof {
        lemma_wf_route_jobs(*ind, *p);
    }
    let ghost pre = *ind;
    insert_job_at(ind, r, pos, u_idx);
    proof {
        assert forall|t: int| 0 <= t < ind.routes@.len() implies (
        #[trigger] ind.routes@[t])@.len() <= p.capacity by {
            if t != r {
                assert(ind.routes@[t] == pre.routes@[t]);
            }
        }
    }
}

/// Repeatedly inserts the first unassigned job at its cheapest feasible
/// position until none is left or every route is full.  Shared by the
/// strategies as the final "place everything" pass.
fn drain_unassigned(p: &Problem, ind: &mut Individual)
    requires
        p.wf(),
        old(ind).wf(*p),
    ensures
        final(ind).wf(*p),
        final(ind).jobs() == old(ind).jobs(),
        final(ind).unassigned@.len() <= old(ind).unassigned@.len(),
        final(ind).unassigned@.len() > 0 ==> all_routes_full(*final(ind), *p),
{
    while ind.unassigned.len() > 0
        invariant
            p.wf(),
            ind.wf(*p),
            ind.jobs() == old(ind).jobs(),
            ind.unassigned@.len() <= old(ind).unassigned@.len(),
        decreases ind.unassigned@.len(),
    {
        let ok = insert_cheapest(p, ind, 0);
        if !ok {
            return ;
        }
    }
}

/// Every job fits when the fleet capacity covers the job count, so a
/// candidate with an unassigned job and all routes full cannot be
/// well-formed under such a problem.
proof fn lemma_capacity_suffices(ind: Individual, p: Problem)
    requires
        p.wf(),
        ind.wf(p),
        p.n_jobs <= p.n_routes * p.capacity,
        all_routes_full(ind, p),
    ensures
        ind.unassigned@.len() == 0,
{
    lemma_wf_route_jobs(ind, p);
    let rs = ind.routes_seq();
    assert forall|r: int| 0 <= r < rs.len() implies (#[trigger] rs[r]).len() == p.capacity by {
        assert(ind.routes@[r]@.len() >= p.capacity);
        assert(ind.routes@[r]@.len() <= p.capacity);
        assert(ind.routes@[r]@ == rs[r]);
    }
    lemma_routes_total_len_const(rs, p.capacity as int);
    assert(ind.assigned_len() == p.n_routes * p.capacity);
}

/// Inserts every unassigned job at its globally cheapest feasible position,
/// in a fixed iteration order.
#[derive(Clone, Copy)]
pub struct RecreateWithCheapest {
}

impl RecreateWithCheapest {
    pub fn new() -> (r: RecreateWithCheapest) {
        RecreateWithCheapest {  }
    }

    /// Total: never fails, never grows the unassigned list, and leaves
    /// nothing unassigned whenever the fleet can hold every job.
    pub fn run(&self, rng: &mut Rng, p: &Problem, ind: &mut Individual)
        requires
            p.wf(),
            old(ind).wf(*p),
        ensures
            final(ind).wf(*p),
            final(ind).jobs() == old(ind).jobs(),
            final(ind).unassigned@.len() <= old(ind).unassigned@.len(),
            final(ind).unassigned@.len() > 0 ==> all_routes_full(*final(ind), *p),
            p.n_jobs <= p.n_routes * p.capacity ==> final(ind).unassigned@.len() == 0,
    {
        drain_unassigned(p, ind);
        proof {
            if p.n_jobs <= p.n_routes * p.capacity && ind.unassigned@.len() > 0 {
                lemma_capacity_suffices(*ind, *p);
            }
        }
        // this strategy is deterministic; the random source is only part
        // of the shared strategy signature
        let _ = rng;
    }
}

/// Inserts jobs in descending regret order: the job whose k-th best
/// insertion is costlier than its best by the largest margin goes first.
#[derive(Clone, Copy)]
pub struct RecreateWithRegret {
    pub start: usize,
    pub end: usize,
}

impl RecreateWithRegret {
    pub fn new(start: usize, end: usize) -> (r: RecreateWithRegret)
        requires
            1 <= start <= end,
        ensures
            r == (RecreateWithRegret { start, end }),
    {
        RecreateWithRegret { start, end }
    }

    /// Total, with the same guarantees as the cheapest strategy.
    pub fn run(&self, rng: &mut Rng, p: &Problem, ind: &mut Individual)
        requires
            p.wf(),
            old(ind).wf(*p),
            1 <= self.start <= self.end,
        ensures
            final(ind).wf(*p),
            final(ind).jobs() == old(ind).jobs(),
            final(ind).unassigned@.len() <= old(ind).unassigned@.len(),
            final(ind).unassigned@.len() > 0 ==> all_routes_full(*final(ind), *p),
            p.n_jobs <= p.n_routes * p.capacity ==> final(ind).unassigned@.len() == 0,
    {
        let k = self.start + rng.below(self.end - self.start + 1);
        while ind.unassigned.len() > 0
            invariant
                k >= 1,
                p.wf(),
                ind.wf(*p),
                ind.jobs() == old(ind).jobs(),
                ind.unassigned@.len() <= old(ind).unassigned@.len(),
            decreases ind.unassigned@.len(),
        {
            // pick the unassigned job with the greatest regret value
            let mut chosen: usize = 0;
            let mut chosen_regret: u64 = 0;
            let mut any = false;
            let mut u: usize = 0;
            while u < ind.unassigned.len()
                invariant
                    u <= ind.unassigned@.len(),
                    ind.unassigned@.len() >= 1,
                    k >= 1,
                    p.wf(),
                    ind.wf(*p),
                    any ==> chosen < ind.unassigned@.len(),
                    !any ==> chosen == 0,
                    !any ==> (u == 0 || all_routes_full(*ind, *p)),
                decreases ind.unassigned@.len() - u,
            {
                proof {
                    lemma_wf_route_jobs(*ind, *p);
                }
                let j = ind.unassigned[u];
                let reg = regret_value(p, ind, j, k);
                match reg {
                    Some(v) => {
                        if !any || v > chosen_regret {
                            any = true;
                            chosen = u;
                            chosen_regret = v;
                        }
                    },
                    None => {},
                }
                u += 1;
            }
            if !any {
                // no feasible insertion for any job: every route is full
                proof {
                    if p.n_jobs <= p.n_routes * p.capacity {
                        lemma_capacity_suffices(*ind, *p);
                    }
                }
                return ;
            }
            let ok = insert_cheapest(p, ind, chosen);
            if !ok {
                proof {
                    if p.n_jobs <= p.n_routes * p.capacity {
                        lemma_capacity_suffices(*ind, *p);
                    }
                }
                return ;
            }
        }
    }
}

/// The regret value of job `j`: the cost gap between its k-th best and best
/// feasible insertion (none when no feasible position exists).
fn regret_value(p: &Problem, ind: &Individual, j: usize, k: usize) -> (r: Option<u64>)
    requires
        p.wf(),
        ind.wf(*p),
        ind.unassigned@.len() >= 1,
        j < p.n_jobs,
        k >= 1,
    ensures
        r is None ==> all_routes_full(*ind, *p),
{
    proof {
        lemma_wf_route_jobs(*ind, *p);
    }
    let m = &p.profiles[0];
    // collect the cost changes of every feasible position, shifted into u64
    let mut deltas: Vec<u64> = Vec::new();
    let mut r: usize = 0;
    while r < ind.routes.len()
        invariant
            r <= ind.routes@.len(),
            p.wf(),
            ind.wf(*p),
            ind.unassigned@.len() >= 1,
            j < p.n_jobs,
            m == &p.profiles@[0],
            deltas@.len() == 0 ==> forall|r2: int|
                0 <= r2 < r ==> (#[trigger] ind.routes@[r2])@.len() >= p.capacity,
        decreases ind.routes@.len() - r,
    {
        if ind.routes[r].len() < p.capacity {
            proof {
                lemma_insertion_eval(*ind, *p, r as int, j);
                lemma_route_cost_bound(ind.routes_seq()[r as int], p.profiles@[0], p.n_jobs as int);
            }
            let old_cost = route_cost(&ind.routes[r], m, Ghost(p.n_jobs as int));
            let len = ind.routes[r].len();
            let mut pos: usize = 0;
            while pos <= len
                invariant
                    pos <= len + 1,
                    len == ind.routes@[r as int]@.len(),
                    len < p.capacity,
                    r < ind.routes@.len(),
                    p.wf(),
                    ind.wf(*p),
                    ind.unassigned@.len() >= 1,
                    j < p.n_jobs,
                    m == &p.profiles@[0],
                    old_cost == route_cost_spec(ind.routes_seq()[r as int], p.profiles@[0]),
                    old_cost <= MAX_JOBS * MAX_COST,
                    deltas@.len() >= pos,
                decreases len + 1 - pos,
            {
                proof {
                    lemma_insertion_eval(*ind, *p, r as int, j);
                }
                let cand = insert_copy(&ind.routes[r], pos, j);
                proof {
                    lemma_route_cost_bound(cand@, p.profiles@[0], p.n_jobs as int);
                }
                let new_cost = route_cost(&cand, m, Ghost(p.n_jobs as int));
                // shift by the largest possible route cost so the key stays
                // non-negative and the order is preserved
                let shifted = new_cost + (MAX_JOBS as u64 * MAX_COST) - old_cost;
                deltas.push(shifted);
                pos += 1;
            }
        }
        r += 1;
    }
    if deltas.len() == 0 {
        return None;
    }
    crate::sorting::sort_u64s(&mut deltas);
    let best = deltas[0];
    let kth_idx = if k - 1 < deltas.len() {
        k - 1
    } else {
        deltas.len() - 1
    };
    let kth = deltas[kth_idx];
    proof {
        assert(deltas@[0] <= deltas@[kth_idx as int]);
    }
    Some(kth - best)
}

/// Like the cheapest strategy, but each evaluated position may be skipped
/// ("blinked") with a small probability, trading optimality for diversity.
#[derive(Clone, Copy)]
pub struct RecreateWithBlinks {
    /// Probability of skipping a position, in thousandths.
    pub blink_permille: u32,
}

impl RecreateWithBlinks {
    pub fn new(blink_permille: u32) -> (r: RecreateWithBlinks)
        ensures
            r.blink_permille == blink_permille,
    {
        RecreateWithBlinks { blink_permille }
    }

    /// Total, with the same guarantees as the cheapest strategy.
    pub fn run(&self, rng: &mut Rng, p: &Problem, ind: &mut Individual)
        requires
            p.wf(),
            old(ind).wf(*p),
        ensures
            final(ind).wf(*p),
            final(ind).jobs() == old(ind).jobs(),
            final(ind).unassigned@.len() <= old(ind).unassigned@.len(),
            final(ind).unassigned@.len() > 0 ==> all_routes_full(*final(ind), *p),
            p.n_jobs <= p.n_routes * p.capacity ==> final(ind).unassigned@.len() == 0,
    {
        while ind.unassigned.len() > 0
            invariant
                p.wf(),
                ind.wf(*p),
                ind.jobs() == old(ind).jobs(),
                ind.unassigned@.len() <= old(ind).unassigned@.len(),
            decreases ind.unassigned@.len(),
        {
            proof {
                lemma_wf_route_jobs(*ind, *p);
            }
            let j = ind.unassigned[0];
            // a blinked scan: try a random feasible position, sometimes
            // skipping cheaper ones
            let blinked = self.find_blinked(rng, p, ind, j);
            match blinked {
                Some((r, pos)) => {
                    do_insert(p, ind, r, pos, 0);
                },
                None => {
                    // fall back to the full scan so the strategy stays total
                    let ok = insert_cheapest(p, ind, 0);
                    if !ok {
                        proof {
                            if p.n_jobs <= p.n_routes * p.capacity {
                                lemma_capacity_suffices(*ind, *p);
                            }
                        }
                        return ;
                    }
                },
            }
        }
    }

    /// Scans the feasible positions, skipping each with the blink
    /// probability, and returns the cheapest position kept.
    fn find_blinked(&self, rng: &mut Rng, p: &Problem, ind: &Individual, j: usize) -> (res: Option<
        (usize, usize),
    >)
        requires
            p.wf(),
            ind.wf(*p),
            ind.unassigned@.len() >= 1,
            j < p.n_jobs,
        ensures
            res matches Some(rp) ==> pos_feasible(*ind, *p, rp.0 as int, rp.1 as int),
    {
        proof {
            lemma_wf_route_jobs(*ind, *p);
        }
        let m = &p.profiles[0];
        let mut found = false;
        let mut best_r: usize = 0;
        let mut best_p: usize = 0;
        let mut best_d: i128 = 0;
        let mut r: usize = 0;
        while r < ind.routes.len()
            invariant
                r <= ind.routes@.len(),
                p.wf(),
                ind.wf(*p),
                ind.unassigned@.len() >= 1,
                j < p.n_jobs,
                m == &p.profiles@[0],
                found ==> pos_feasible(*ind, *p, best_r as int, best_p as int),
            decreases ind.routes@.len() - r,
        {
            if ind.routes[r].len() < p.capacity {
                proof {
                    lemma_insertion_eval(*ind, *p, r as int, j);
                    lemma_route_cost_bound(
                        ind.routes_seq()[r as int],
                        p.profiles@[0],
                        p.n_jobs as int,
                    );
                }
                let old_cost = route_cost(&ind.routes[r], m, Ghost(p.n_jobs as int));
                let len = ind.routes[r].len();
                let mut pos: usize = 0;
                while pos <= len
                    invariant
                        pos <= len + 1,
                        len == ind.routes@[r as int]@.len(),
                        len < p.capacity,
                        r < ind.routes@.len(),
                        p.wf(),
                        ind.wf(*p),
                        ind.unassigned@.len() >= 1,
                        j < p.n_jobs,
                        m == &p.profiles@[0],
                        old_cost <= MAX_JOBS * MAX_COST,
                        found ==> pos_feasible(*ind, *p, best_r as int, best_p as int),
                    decreases len + 1 - pos,
                {
                    if rng.permille() >= self.blink_permille {
                        proof {
                            lemma_insertion_eval(*ind, *p, r as int, j);
                        }
                        let cand = insert_copy(&ind.routes[r], pos, j);
                        proof {
                            lemma_route_cost_bound(cand@, p.profiles@[0], p.n_jobs as int);
                        }
                        let new_cost = route_cost(&cand, m, Ghost(p.n_jobs as int));
                        let d: i128 = new_cost as i128 - old_cost as i128;
                        if !found || d < best_d {
                            found = true;
                            best_r = r;
                            best_p = pos;
                            best_d = d;
                        }
                    }
                    pos += 1;
                }
            }
            r += 1;
        }
        if found {
            Some((best_r, best_p))
        } else {
            None
        }
    }
}

/// Prefers insertion positions that leave at least `min_gap` units of spare
/// capacity in the route, falling back to the full search.
#[derive(Clone, Copy)]
pub struct RecreateWithGaps {
    pub min_gap: usize,
}

impl RecreateWithGaps {
    pub fn new(min_gap: usize) -> (r: RecreateWithGaps)
        ensures
            r.min_gap == min_gap,
    {
        RecreateWithGaps { min_gap }
    }

    /// Total, with the same guarantees as the cheapest strategy.
    pub fn run(&self, rng: &mut Rng, p: &Problem, ind: &mut Individual)
        requires
            p.wf(),
            old(ind).wf(*p),
        ensures
            final(ind).wf(*p),
            final(ind).jobs() == old(ind).jobs(),
            final(ind).unassigned@.len() <= old(ind).unassigned@.len(),
            final(ind).unassigned@.len() > 0 ==> all_routes_full(*final(ind), *p),
            p.n_jobs <= p.n_routes * p.capacity ==> final(ind).unassigned@.len() == 0,
    {
        while ind.unassigned.len() > 0
            invariant
                p.wf(),
                ind.wf(*p),
                ind.jobs() == old(ind).jobs(),
                ind.unassigned@.len() <= old(ind).unassigned@.len(),
            decreases ind.unassigned@.len(),
        {
            proof {
                lemma_wf_route_jobs(*ind, *p);
            }
            let j = ind.unassigned[0];
            // positions that keep the required gap
            let gapped = self.find_gapped(p, ind, j);
            match gapped {
                Some((r, pos)) => {
                    do_insert(p, ind, r, pos, 0);
                },
                None => {
                    let ok = insert_cheapest(p, ind, 0);
                    if !ok {
                        proof {
                            if p.n_jobs <= p.n_routes * p.capacity {
                                lemma_capacity_suffices(*ind, *p);
                            }
                        }
                        return ;
                    }
                },
            }
        }
        // this strategy is deterministic; the random source is only part
        // of the shared strategy signature
        let _ = rng;
    }

    /// The cheapest position among the routes that keep `min_gap` spare
    /// capacity after the insertion.
    fn find_gapped(&self, p: &Problem, ind: &Individual, j: usize) -> (res: Option<
        (usize, usize),
    >)
        requires
            p.wf(),
            ind.wf(*p),
            ind.unassigned@.len() >= 1,
            j < p.n_jobs,
        ensures
            res matches Some(rp) ==> pos_feasible(*ind, *p, rp.0 as int, rp.1 as int),
    {
        proof {
            lemma_wf_route_jobs(*ind, *p);
        }
        let m = &p.profiles[0];
        let mut found = false;
        let mut best_r: usize = 0;
        let mut best_p: usize = 0;
        let mut best_d: i128 = 0;
        let mut r: usize = 0;
        while r < ind.routes.len()
            invariant
                r <= ind.routes@.len(),
                p.wf(),
                ind.wf(*p),
                ind.unassigned@.len() >= 1,
                j < p.n_jobs,
                m == &p.profiles@[0],
                found ==> pos_feasible(*ind, *p, best_r as int, best_p as int),
            decreases ind.routes@.len() - r,
        {
            let len = ind.routes[r].len();
            // require `min_gap` spare slots after inserting one more job
            let keeps_gap = len < p.capacity && p.capacity - 1 - len >= self.min_gap;
            if keeps_gap {
                proof {
                    lemma_insertion_eval(*ind, *p, r as int, j);
                    lemma_route_cost_bound(
                        ind.routes_seq()[r as int],
                        p.profiles@[0],
                        p.n_jobs as int,
                    );
                }
                let old_cost = route_cost(&ind.routes[r], m, Ghost(p.n_jobs as int));
                let mut pos: usize = 0;
                while pos <= len
                    invariant
                        pos <= len + 1,
                        len == ind.routes@[r as int]@.len(),
                        len < p.capacity,
                        r < ind.routes@.len(),
                        p.wf(),
                        ind.wf(*p),
                        ind.unassigned@.len() >= 1,
                        j < p.n_jobs,
                        m == &p.profiles@[0],
                        old_cost <= MAX_JOBS * MAX_COST,
                        found ==> pos_feasible(*ind, *p, best_r as int, best_p as int),
                    decreases len + 1 - pos,
                {
                    proof {
                        lemma_insertion_eval(*ind, *p, r as int, j);
                    }
                    let cand = insert_copy(&ind.routes[r], pos, j);
                    proof {
                        lemma_route_cost_bound(cand@, p.profiles@[0], p.n_jobs as int);
                    }
                    let new_cost = route_cost(&cand, m, Ghost(p.n_jobs as int));
                    let d: i128 = new_cost as i128 - old_cost as i128;
                    if !found || d < best_d {
                        found = true;
                        best_r = r;
                        best_p = pos;
                        best_d = d;
                    }
                    pos += 1;
                }
            }
            r += 1;
        }
        if found {
            Some((best_r, best_p))
        } else {
            None
        }
    }
}

/// Inserts each unassigned job right after its nearest assigned job by
/// cost, falling back to the cheapest feasible position.
#[derive(Clone, Copy)]
pub struct RecreateWithNearestNeighbor {
}

impl RecreateWithNearestNeighbor {
    pub fn new() -> (r: RecreateWithNearestNeighbor) {
        RecreateWithNearestNeighbor {  }
    }

    /// Total, with the same guarantees as the cheapest strategy.
    pub fn run(&self, rng: &mut Rng, p: &Problem, ind: &mut Individual)
        requires
            p.wf(),
            old(ind).wf(*p),
        ensures
            final(ind).wf(*p),
            final(ind).jobs() == old(ind).jobs(),
            final(ind).unassigned@.len() <= old(ind).unassigned@.len(),
            final(ind).unassigned@.len() > 0 ==> all_routes_full(*final(ind), *p),
            p.n_jobs <= p.n_routes * p.capacity ==> final(ind).unassigned@.len() == 0,
    {
        while ind.unassigned.len() > 0
            invariant
                p.wf(),
                ind.wf(*p),
                ind.jobs() == old(ind).jobs(),
                ind.unassigned@.len() <= old(ind).unassigned@.len(),
            decreases ind.unassigned@.len(),
        {
            proof {
                lemma_wf_route_jobs(*ind, *p);
            }
            let j = ind.unassigned[0];
            let near = self.find_after_nearest(p, ind, j);
            match near {
                Some((r, pos)) => {
                    do_insert(p, ind, r, pos, 0);
                },
                None => {
                    let ok = insert_cheapest(p, ind, 0);
                    if !ok {
                        proof {
                            if p.n_jobs <= p.n_routes * p.capacity {
                                lemma_capacity_suffices(*ind, *p);
                            }
                        }
                        return ;
                    }
                },
            }
        }
        // this strategy is deterministic; the random source is only part
        // of the shared strategy signature
        let _ = rng;
    }

    /// The position right after the assigned job nearest to `j`, when its
    /// route still has room.
    fn find_after_nearest(&self, p: &Problem, ind: &Individual, j: usize) -> (res: Option<
        (usize, usize),
    >)
        requires
            p.wf(),
            ind.wf(*p),
            j < p.n_jobs,
        ensures
            res matches Some(rp) ==> pos_feasible(*ind, *p, rp.0 as int, rp.1 as int),
    {
        proof {
            lemma_wf_route_jobs(*ind, *p);
        }
        let m = &p.profiles[0];
        let mut found = false;
        let mut best_cost: u64 = 0;
        let mut best_r: usize = 0;
        let mut best_p: usize = 0;
        let mut r: usize = 0;
        while r < ind.routes.len()
            invariant
                r <= ind.routes@.len(),
                p.wf(),
                ind.wf(*p),
                j < p.n_jobs,
                m == &p.profiles@[0],
                found ==> pos_feasible(*ind, *p, best_r as int, best_p as int),
            decreases ind.routes@.len() - r,
        {
            if ind.routes[r].len() < p.capacity {
                let mut q: usize = 0;
                while q < ind.routes[r].len()
                    invariant
                        r < ind.routes@.len(),
                        q <= ind.routes@[r as int]@.len(),
                        ind.routes@[r as int]@.len() < p.capacity,
                        p.wf(),
                        ind.wf(*p),
                        j < p.n_jobs,
                        m == &p.profiles@[0],
                        found ==> pos_feasible(*ind, *p, best_r as int, best_p as int),
                    decreases ind.routes@[r as int]@.len() - q,
                {
                    proof {
                        lemma_wf_route_jobs(*ind, *p);
                        assert(ind.routes_seq()[r as int][q as int] == ind.routes@[r as
                            int]@[q as int]);
                    }
                    let a = ind.routes[r][q];
                    let c = m.get(j, a);
                    if !found || c < best_cost {
                        found = true;
                        best_cost = c;
                        best_r = r;
                        best_p = q + 1;
                    }
                    q += 1;
                }
            }
            r += 1;
        }
        if found {
            Some((best_r, best_p))
        } else {
            None
        }
    }
}

} // verus!
