//! Problem model and solution candidates.
//!
//! A problem holds `n_jobs` work units ("jobs", numbered `0..n_jobs`),
//! `n_routes` routes, a per-route capacity and one cost matrix per fleet
//! profile.  A candidate solution (`Individual`) partitions the jobs into
//! ordered routes plus a list of unassigned jobs; well-formedness says that
//! every job appears exactly once overall.  The two primitives that move a
//! job between a route and the unassigned list prove that this partition is
//! preserved, which is what makes every ruin and recreate strategy safe.

use vstd::prelude::*;
use vstd::multiset::Multiset;

verus! {

/// Upper bound on the number of jobs a problem may hold.
pub const MAX_JOBS: usize = 65536;
/// Upper bound on the number of routes.
pub const MAX_ROUTES: usize = 1024;
/// Upper bound on a single cost matrix entry.
pub const MAX_COST: u64 = 0xFFFF;
/// Upper bound on the number of fleet cost profiles.
pub const MAX_PROFILES: usize = 64;

/// A square matrix of travel costs between jobs for one fleet profile.
pub struct Matrix {
    pub costs: Vec<Vec<u64>>,
}

impl Matrix {
    /// The matrix is `n` by `n` and every entry is at most `MAX_COST`.
    pub open spec fn wf(self, n: int) -> bool {
        &&& self.costs@.len() == n
        &&& forall|i: int| 0 <= i < n ==> (#[trigger] self.costs@[i])@.len() == n
        &&& forall|i: int, j: int|
            0 <= i < n && 0 <= j < n ==> #[trigger] self.costs@[i]@[j] <= MAX_COST
    }

    pub open spec fn at(self, i: int, j: int) -> u64 {
        self.costs@[i]@[j]
    }

    /// Cost from job `i` to job `j`.
    pub fn get(&self, i: usize, j: usize) -> (r: u64)
        requires
            i < self.costs@.len(),
            j < self.costs@[i as int]@.len(),
        ensures
            r == self.at(i as int, j as int),
    {
        self.costs[i][j]
    }
}

/// An immutable routing problem: jobs, routes, capacity and cost profiles.
pub struct Problem {
    /// Number of work units; jobs are identified by `0..n_jobs`.
    pub n_jobs: usize,
    /// Number of routes every candidate solution must carry.
    pub n_routes: usize,
    /// Maximum number of jobs one route may hold (the hard constraint).
    pub capacity: usize,
    /// One cost matrix per fleet profile; profile 0 drives the goal cost.
    pub profiles: Vec<Matrix>,
}

impl Problem {
    pub open spec fn wf(self) -> bool {
        &&& self.n_jobs <= MAX_JOBS
        &&& 0 < self.n_routes <= MAX_ROUTES
        &&& 0 < self.capacity
        &&& 0 < self.profiles@.len() <= MAX_PROFILES
        &&& forall|k: int|
            0 <= k < self.profiles@.len() ==> (#[trigger] self.profiles@[k]).wf(
                self.n_jobs as int,
            )
    }

    /// Builds a problem after checking the shape of every cost matrix.
    /// Returns an error exactly when a bound or a matrix shape is violated.
    pub fn new(n_jobs: usize, n_routes: usize, capacity: usize, profiles: Vec<Matrix>) -> (r:
        Result<Problem, String>)
        ensures
            r is Ok <==> {
                &&& n_jobs <= MAX_JOBS
                &&& 0 < n_routes <= MAX_ROUTES
                &&& 0 < capacity
                &&& 0 < profiles@.len() <= MAX_PROFILES
                &&& forall|k: int|
                    0 <= k < profiles@.len() ==> (#[trigger] profiles@[k]).wf(n_jobs as int)
            },
            r matches Ok(p) ==> p == (Problem { n_jobs, n_routes, capacity, profiles }) && p.wf(),
    {
        if n_jobs > MAX_JOBS || n_routes == 0 || n_routes > MAX_ROUTES || capacity == 0
            || profiles.len() == 0 || profiles.len() > MAX_PROFILES {
            return Err("problem model violates size bounds".to_string());
        }
        let mut k: usize = 0;
        while k < profiles.len()
            invariant
                k <= profiles@.len(),
                forall|t: int| 0 <= t < k ==> (#[trigger] profiles@[t]).wf(n_jobs as int),
            decreases profiles@.len() - k,
        {
            let m = &profiles[k];
            if m.costs.len() != n_jobs {
                proof {
                    assert(!profiles@[k as int].wf(n_jobs as int));
                }
                return Err("cost matrix does not match the job count".to_string());
            }
            let mut i: usize = 0;
            while i < m.costs.len()
                invariant
                    i <= m.costs@.len(),
                    m.costs@.len() == n_jobs,
                    k < profiles@.len(),
                    m == &profiles@[k as int],
                    forall|t: int|
                        0 <= t < i ==> (#[trigger] m.costs@[t])@.len() == n_jobs && forall|u: int|
                            0 <= u < n_jobs ==> m.costs@[t]@[u] <= MAX_COST,
                decreases m.costs@.len() - i,
            {
                if m.costs[i].len() != n_jobs {
                    proof {
                        assert(!profiles@[k as int].wf(n_jobs as int));
                    }
                    return Err("cost matrix row does not match the job count".to_string());
                }
                let mut j: usize = 0;
                while j < n_jobs
                    invariant
                        j <= n_jobs,
                        i < m.costs@.len(),
                        m.costs@.len() == n_jobs,
                        m.costs@[i as int]@.len() == n_jobs,
                        k < profiles@.len(),
                        m == &profiles@[k as int],
                        forall|u: int| 0 <= u < j ==> #[trigger] m.costs@[i as int]@[u] <= MAX_COST,
                    decreases n_jobs - j,
                {
                    if m.costs[i][j] > MAX_COST {
                        proof {
                            assert(!profiles@[k as int].wf(n_jobs as int));
                        }
                        return Err("cost matrix entry exceeds the cost bound".to_string());
                    }
                    j += 1;
                }
                i += 1;
            }
            assert(m.wf(n_jobs as int));
            k += 1;
        }
        Ok(Problem { n_jobs, n_routes, capacity, profiles })
    }
}

/// The multiset of jobs held by a sequence of routes.
pub open spec fn routes_ms(rs: Seq<Seq<usize>>) -> Multiset<usize>
    decreases rs.len(),
{
    if rs.len() == 0 {
        Multiset::empty()
    } else {
        rs[0].to_multiset().add(routes_ms(rs.drop_first()))
    }
}

/// The multiset holding each of the jobs `0..n` exactly once.
pub open spec fn full_jobs(n: int) -> Multiset<usize> {
    Seq::new(n as nat, |i: int| i as usize).to_multiset()
}

/// Sum of the route lengths.
pub open spec fn routes_total_len(rs: Seq<Seq<usize>>) -> int
    decreases rs.len(),
{
    if rs.len() == 0 {
        0
    } else {
        rs[0].len() + routes_total_len(rs.drop_first())
    }
}

/// One candidate solution: an ordered assignment of jobs to routes plus the
/// jobs that are currently unassigned.
pub struct Individual {
    pub routes: Vec<Vec<usize>>,
    pub unassigned: Vec<usize>,
}

impl Individual {
    /// The routes as mathematical sequences.
    pub open spec fn routes_seq(self) -> Seq<Seq<usize>> {
        self.routes@.map_values(|v: Vec<usize>| v@)
    }

    /// Every job the candidate holds, assigned or not, with multiplicity.
    pub open spec fn jobs(self) -> Multiset<usize> {
        routes_ms(self.routes_seq()).add(self.unassigned@.to_multiset())
    }

    /// Number of assigned jobs.
    pub open spec fn assigned_len(self) -> int {
        routes_total_len(self.routes_seq())
    }

    /// Well-formed for a problem: the route count matches, every job of
    /// `0..n_jobs` appears exactly once overall, and no route exceeds the
    /// capacity.
    pub open spec fn wf(self, p: Problem) -> bool {
        &&& self.routes@.len() == p.n_routes
        &&& self.jobs() == full_jobs(p.n_jobs as int)
        &&& forall|r: int|
            0 <= r < self.routes@.len() ==> (#[trigger] self.routes@[r])@.len() <= p.capacity
    }

    /// The candidate with every job unassigned and all routes empty.
    pub fn empty(p: &Problem) -> (r: Individual)
        requires
            p.wf(),
        ensures
            r.wf(*p),
            r.unassigned@.len() == p.n_jobs,
            r.assigned_len() == 0,
    {
        let mut routes: Vec<Vec<usize>> = Vec::new();
        let mut k: usize = 0;
        while k < p.n_routes
            invariant
                k <= p.n_routes,
                routes@.len() == k,
                forall|r: int| 0 <= r < k ==> (#[trigger] routes@[r])@.len() == 0,
            decreases p.n_routes - k,
        {
            routes.push(Vec::new());
            k += 1;
        }
        let mut unassigned: Vec<usize> = Vec::new();
        let mut j: usize = 0;
        while j < p.n_jobs
            invariant
                j <= p.n_jobs,
                unassigned@ =~= Seq::new(j as nat, |i: int| i as usize),
            decreases p.n_jobs - j,
        {
            unassigned.push(j);
            j += 1;
        }
        let r = Individual { routes, unassigned };
        proof {
            lemma_routes_ms_all_empty(r.routes_seq());
            assert(r.jobs() =~= full_jobs(p.n_jobs as int));
            lemma_routes_total_len_all_empty(r.routes_seq());
        }
        r
    }

    /// Number of assigned jobs, computed by summing the route lengths.
    pub fn count_assigned(&self) -> (r: usize)
        requires
            routes_total_len(self.routes_seq()) <= usize::MAX,
        ensures
            r == self.assigned_len(),
    {
        let mut sum: usize = 0;
        let mut k: usize = 0;
        while k < self.routes.len()
            invariant
                k <= self.routes@.len(),
                sum == routes_total_len(self.routes_seq().take(k as int)),
                routes_total_len(self.routes_seq()) <= usize::MAX,
            decreases self.routes@.len() - k,
        {
            proof {
                lemma_routes_total_len_take(self.routes_seq(), k as int);
                lemma_routes_total_len_prefix(self.routes_seq(), k + 1);
            }
            sum = sum + self.routes[k].len();
            k += 1;
        }
        proof {
            assert(self.routes_seq().take(self.routes_seq().len() as int) =~= self.routes_seq());
        }
        sum
    }
}

/// Total length of a prefix is bounded by the total length of the whole.
pub proof fn lemma_routes_total_len_prefix(rs: Seq<Seq<usize>>, k: int)
    requires
        0 <= k <= rs.len(),
    ensures
        routes_total_len(rs.take(k)) <= routes_total_len(rs),
        routes_total_len(rs) >= 0,
    decreases rs.len(),
{
    if rs.len() == 0 {
        assert(rs.take(k) =~= rs);
    } else {
        if k == 0 {
            assert(rs.take(0) =~= Seq::<Seq<usize>>::empty());
            lemma_routes_total_len_prefix(rs.drop_first(), 0);
        } else {
            assert(rs.take(k).drop_first() =~= rs.drop_first().take(k - 1));
            lemma_routes_total_len_prefix(rs.drop_first(), k - 1);
        }
    }
}

/// Taking one more route adds that route's length.
pub proof fn lemma_routes_total_len_take(rs: Seq<Seq<usize>>, k: int)
    requires
        0 <= k < rs.len(),
    ensures
        routes_total_len(rs.take(k + 1)) == routes_total_len(rs.take(k)) + rs[k].len(),
    decreases k,
{
    if k == 0 {
        assert(rs.take(1).drop_first() =~= Seq::<Seq<usize>>::empty());
        assert(rs.take(0) =~= Seq::<Seq<usize>>::empty());
    } else {
        assert(rs.take(k + 1).drop_first() =~= rs.drop_first().take(k));
        assert(rs.take(k).drop_first() =~= rs.drop_first().take(k - 1));
        lemma_routes_total_len_take(rs.drop_first(), k - 1);
    }
}

/// All-empty routes hold no jobs.
pub proof fn lemma_routes_ms_all_empty(rs: Seq<Seq<usize>>)
    requires
        forall|r: int| 0 <= r < rs.len() ==> (#[trigger] rs[r]).len() == 0,
    ensures
        routes_ms(rs) =~= Multiset::<usize>::empty(),
    decreases rs.len(),
{
    broadcast use vstd::seq_lib::group_to_multiset_ensures;

    if rs.len() > 0 {
        assert forall|x: usize| rs[0].to_multiset().count(x) == 0 by {
            assert(!rs[0].contains(x));
        }
        assert(rs[0].to_multiset() =~= Multiset::<usize>::empty());
        lemma_routes_ms_all_empty(rs.drop_first());
    }
}

/// All-empty routes have total length zero.
pub proof fn lemma_routes_total_len_all_empty(rs: Seq<Seq<usize>>)
    requires
        forall|r: int| 0 <= r < rs.len() ==> (#[trigger] rs[r]).len() == 0,
    ensures
        routes_total_len(rs) == 0,
    decreases rs.len(),
{
    if rs.len() > 0 {
        lemma_routes_total_len_all_empty(rs.drop_first());
    }
}

/// Replacing one route changes the held multiset by exactly the difference
/// between the old and the new route, stated without multiset subtraction.
pub proof fn lemma_routes_ms_update(rs: Seq<Seq<usize>>, r: int, s2: Seq<usize>)
    requires
        0 <= r < rs.len(),
    ensures
        routes_ms(rs.update(r, s2)).add(rs[r].to_multiset()) =~= routes_ms(rs).add(
            s2.to_multiset(),
        ),
    decreases r,
{
    if r == 0 {
        assert(rs.update(0, s2).drop_first() =~= rs.drop_first());
        assert(rs.update(0, s2)[0] == s2);
    } else {
        assert(rs.update(r, s2).drop_first() =~= rs.drop_first().update(r - 1, s2));
        lemma_routes_ms_update(rs.drop_first(), r - 1, s2);
        assert(routes_ms(rs.drop_first().update(r - 1, s2)).add(rs.drop_first()[r - 1].to_multiset())
            =~= routes_ms(rs.drop_first()).add(s2.to_multiset()));
        assert(rs.update(r, s2)[0] == rs[0]);
        assert(rs.drop_first()[r - 1] == rs[r]);
        assert(routes_ms(rs.update(r, s2)) == rs[0].to_multiset().add(
            routes_ms(rs.drop_first().update(r - 1, s2)),
        ));
        assert(routes_ms(rs) == rs[0].to_multiset().add(routes_ms(rs.drop_first())));
        assert forall|x: usize|
            routes_ms(rs.update(r, s2)).add(rs[r].to_multiset()).count(x) == routes_ms(rs).add(
                s2.to_multiset(),
            ).count(x) by {
            assert(routes_ms(rs.drop_first().update(r - 1, s2)).count(x) + rs[r].to_multiset().count(
                x,
            ) == routes_ms(rs.drop_first()).count(x) + s2.to_multiset().count(x)) by {
                assert(routes_ms(rs.drop_first().update(r - 1, s2)).add(
                    rs.drop_first()[r - 1].to_multiset(),
                ).count(x) == routes_ms(rs.drop_first()).add(s2.to_multiset()).count(x));
            }
        }
    }
}

/// Appending a route adds its jobs to the held multiset.
pub proof fn lemma_routes_ms_push(rs: Seq<Seq<usize>>, s2: Seq<usize>)
    ensures
        routes_ms(rs.push(s2)) =~= routes_ms(rs).add(s2.to_multiset()),
    decreases rs.len(),
{
    if rs.len() == 0 {
        assert(rs.push(s2)[0] == s2);
        assert(rs.push(s2).drop_first() =~= Seq::<Seq<usize>>::empty());
        assert(routes_ms(rs.push(s2)) == s2.to_multiset().add(routes_ms(
            Seq::<Seq<usize>>::empty(),
        )));
        assert forall|x: usize|
            routes_ms(rs.push(s2)).count(x) == routes_ms(rs).add(s2.to_multiset()).count(x) by {}
    } else {
        assert(rs.push(s2).drop_first() =~= rs.drop_first().push(s2));
        lemma_routes_ms_push(rs.drop_first(), s2);
        assert(rs.push(s2)[0] == rs[0]);
        assert(routes_ms(rs.push(s2)) == rs[0].to_multiset().add(routes_ms(
            rs.drop_first().push(s2),
        )));
        assert(routes_ms(rs) == rs[0].to_multiset().add(routes_ms(rs.drop_first())));
        assert forall|x: usize|
            routes_ms(rs.push(s2)).count(x) == routes_ms(rs).add(s2.to_multiset()).count(x) by {
            assert(routes_ms(rs.drop_first().push(s2)).count(x) == routes_ms(
                rs.drop_first(),
            ).add(s2.to_multiset()).count(x));
        }
    }
}

/// Updating one route also updates the total length by the difference.
pub proof fn lemma_routes_total_len_update(rs: Seq<Seq<usize>>, r: int, s2: Seq<usize>)
    requires
        0 <= r < rs.len(),
    ensures
        routes_total_len(rs.update(r, s2)) == routes_total_len(rs) - rs[r].len() + s2.len(),
    decreases r,
{
    if r == 0 {
        assert(rs.update(0, s2).drop_first() =~= rs.drop_first());
    } else {
        assert(rs.update(r, s2).drop_first() =~= rs.drop_first().update(r - 1, s2));
        lemma_routes_total_len_update(rs.drop_first(), r - 1, s2);
    }
}

/// A job sitting in some route is in the held multiset.
pub proof fn lemma_routes_ms_member(rs: Seq<Seq<usize>>, r: int, p: int)
    requires
        0 <= r < rs.len(),
        0 <= p < rs[r].len(),
    ensures
        routes_ms(rs).count(rs[r][p]) >= 1,
    decreases r,
{
    broadcast use vstd::seq_lib::group_to_multiset_ensures;

    if r == 0 {
        assert(rs[0].contains(rs[0][p]));
    } else {
        lemma_routes_ms_member(rs.drop_first(), r - 1, p);
    }
}

/// `full_jobs(n)` holds exactly the jobs below `n`, once each.
pub proof fn lemma_full_jobs_count(n: int, j: usize)
    requires
        0 <= n <= usize::MAX,
    ensures
        full_jobs(n).count(j) == if (j as int) < n {
            1int
        } else {
            0int
        },
    decreases n,
{
    broadcast use vstd::seq_lib::group_to_multiset_ensures;

    if n == 0 {
        let s = Seq::new(0, |i: int| i as usize);
        assert(!s.contains(j));
        assert(s.to_multiset().count(j) == 0);
    } else {
        let s = Seq::new(n as nat, |i: int| i as usize);
        let s0 = Seq::new((n - 1) as nat, |i: int| i as usize);
        assert(s =~= s0.push((n - 1) as usize));
        lemma_full_jobs_count(n - 1, j);
        assert(s.to_multiset() =~= s0.to_multiset().insert((n - 1) as usize));
    }
}

/// Moves the job at position `p` of route `r` to the unassigned list.
/// The overall job multiset is unchanged.
pub fn remove_job_at(ind: &mut Individual, r: usize, p: usize)
    requires
        r < old(ind).routes@.len(),
        p < old(ind).routes@[r as int]@.len(),
        old(ind).unassigned@.len() < usize::MAX,
    ensures
        final(ind).jobs() == old(ind).jobs(),
        final(ind).routes@.len() == old(ind).routes@.len(),
        forall|i: int|
            0 <= i < old(ind).routes@.len() && i != r ==> final(ind).routes@[i] == old(
                ind,
            ).routes@[i],
        final(ind).routes@[r as int]@ == old(ind).routes@[r as int]@.remove(p as int),
        final(ind).unassigned@ == old(ind).unassigned@.push(old(ind).routes@[r as int]@[p as int]),
        final(ind).assigned_len() == old(ind).assigned_len() - 1,
{
    let ghost old_rs = ind.routes_seq();
    let ghost old_route = ind.routes@[r as int]@;
    let ghost j_spec = old_route[p as int];
    let mut route = ind.routes.remove(r);
    let j = route.remove(p);
    ind.routes.insert(r, route);
    ind.unassigned.push(j);
    proof {
        broadcast use vstd::seq_lib::group_to_multiset_ensures;

        assert(ind.routes@ =~= old(ind).routes@.update(r as int, ind.routes@[r as int]));
        let new_rs = ind.routes_seq();
        assert(new_rs =~= old_rs.update(r as int, old_route.remove(p as int)));
        lemma_routes_ms_update(old_rs, r as int, old_route.remove(p as int));
        lemma_routes_total_len_update(old_rs, r as int, old_route.remove(p as int));
        assert(old_route.remove(p as int).to_multiset() =~= old_route.to_multiset().remove(j_spec));
        lemma_routes_ms_member(old_rs, r as int, p as int);
        assert(old_route.to_multiset().count(j_spec) >= 1);
        assert(ind.unassigned@ =~= old(ind).unassigned@.push(j_spec));
        assert(ind.unassigned@.to_multiset() =~= old(ind).unassigned@.to_multiset().insert(j_spec));
        assert forall|x: usize| final(ind).jobs().count(x) == old(ind).jobs().count(x) by {
            assert(routes_ms(new_rs).add(old_route.to_multiset()).count(x) == routes_ms(
                old_rs,
            ).add(old_route.to_multiset().remove(j_spec)).count(x));
        }
        assert(final(ind).jobs() =~= old(ind).jobs());
    }
}

/// Moves the unassigned job at index `u_idx` into route `r` at position `p`.
/// The overall job multiset is unchanged.
pub fn insert_job_at(ind: &mut Individual, r: usize, p: usize, u_idx: usize)
    requires
        r < old(ind).routes@.len(),
        p <= old(ind).routes@[r as int]@.len(),
        u_idx < old(ind).unassigned@.len(),
        old(ind).routes@[r as int]@.len() < usize::MAX,
    ensures
        final(ind).jobs() == old(ind).jobs(),
        final(ind).routes@.len() == old(ind).routes@.len(),
        forall|i: int|
            0 <= i < old(ind).routes@.len() && i != r ==> final(ind).routes@[i] == old(
                ind,
            ).routes@[i],
        final(ind).routes@[r as int]@ == old(ind).routes@[r as int]@.insert(
            p as int,
            old(ind).unassigned@[u_idx as int],
        ),
        final(ind).unassigned@ == old(ind).unassigned@.remove(u_idx as int),
        final(ind).assigned_len() == old(ind).assigned_len() + 1,
{
    let ghost old_rs = ind.routes_seq();
    let ghost old_route = ind.routes@[r as int]@;
    let ghost j_spec = ind.unassigned@[u_idx as int];
    let j = ind.unassigned.remove(u_idx);
    let mut route = ind.routes.remove(r);
    route.insert(p, j);
    ind.routes.insert(r, route);
    proof {
        broadcast use vstd::seq_lib::group_to_multiset_ensures;

        assert(ind.routes@ =~= old(ind).routes@.update(r as int, ind.routes@[r as int]));
        let new_rs = ind.routes_seq();
        let new_route = old_route.insert(p as int, j_spec);
        assert(new_rs =~= old_rs.update(r as int, new_route));
        lemma_routes_ms_update(old_rs, r as int, new_route);
        lemma_routes_total_len_update(old_rs, r as int, new_route);
        assert(new_route =~= old_route.insert(p as int, j_spec));
        lemma_to_multiset_insert(old_route, p as int, j_spec);
        assert(new_route.to_multiset() =~= old_route.to_multiset().insert(j_spec));
        assert(ind.unassigned@.to_multiset() =~= old(ind).unassigned@.to_multiset().remove(j_spec));
        assert(old(ind).unassigned@.to_multiset().count(j_spec) >= 1) by {
            assert(old(ind).unassigned@.contains(j_spec));
        }
        assert forall|x: usize| final(ind).jobs().count(x) == old(ind).jobs().count(x) by {
            assert(routes_ms(new_rs).add(old_route.to_multiset()).count(x) == routes_ms(
                old_rs,
            ).add(new_route.to_multiset()).count(x));
        }
        assert(final(ind).jobs() =~= old(ind).jobs());
    }
}

/// Inserting an element into a sequence inserts it into the multiset.
pub proof fn lemma_to_multiset_insert<A>(s: Seq<A>, p: int, x: A)
    requires
        0 <= p <= s.len(),
    ensures
        s.insert(p, x).to_multiset() =~= s.to_multiset().insert(x),
{
    broadcast use vstd::seq_lib::group_to_multiset_ensures;

    let t = s.insert(p, x);
    assert(t.remove(p) =~= s);
    assert(t[p] == x);
    assert(t.remove(p).to_multiset() =~= t.to_multiset().remove(x));
    assert(t.to_multiset().count(x) >= 1) by {
        assert(t.contains(x));
    }
    assert forall|y: A| t.to_multiset().count(y) == s.to_multiset().insert(x).count(y) by {
        assert(s.to_multiset().count(y) == t.to_multiset().remove(x).count(y));
    }
}

/// Swapping two elements of a sequence keeps its multiset.
pub proof fn lemma_swap_multiset<A>(s: Seq<A>, i: int, j: int)
    requires
        0 <= i < s.len(),
        0 <= j < s.len(),
        i != j,
    ensures
        s.update(i, s[j]).update(j, s[i]).to_multiset() =~= s.to_multiset(),
{
    broadcast use vstd::seq_lib::group_to_multiset_ensures;

    let u1 = s.update(i, s[j]);
    let u2 = u1.update(j, s[i]);
    assert(u1 =~= s.remove(i).insert(i, s[j]));
    lemma_to_multiset_insert(s.remove(i), i, s[j]);
    assert(u1.to_multiset() =~= s.to_multiset().remove(s[i]).insert(s[j]));
    assert(u2 =~= u1.remove(j).insert(j, s[i]));
    lemma_to_multiset_insert(u1.remove(j), j, s[i]);
    assert(u1[j] == s[j]);
    assert(u2.to_multiset() =~= u1.to_multiset().remove(s[j]).insert(s[i]));
    assert(s.to_multiset().count(s[i]) >= 1) by {
        assert(s.contains(s[i]));
    }
    assert(u1.to_multiset().count(s[j]) >= 1) by {
        assert(u1[i] == s[j]);
        assert(u1.contains(s[j]));
    }
    assert forall|x: A| u2.to_multiset().count(x) == s.to_multiset().count(x) by {}
}

/// A fitness value: fewer unassigned jobs is always better; the transport
/// cost breaks ties.
#[derive(Clone, Copy, PartialEq, Eq, Structural, Debug)]
pub struct Fitness {
    pub unassigned: usize,
    pub cost: u64,
}

impl Fitness {
    /// Lexicographic order: unassigned count first, then cost.
    pub open spec fn le_spec(self, other: Fitness) -> bool {
        self.unassigned < other.unassigned || (self.unassigned == other.unassigned && self.cost
            <= other.cost)
    }

    /// True when `self` is at least as good as `other`.
    pub fn le(&self, other: &Fitness) -> (r: bool)
        ensures
            r == self.le_spec(*other),
    {
        self.unassigned < other.unassigned || (self.unassigned == other.unassigned && self.cost
            <= other.cost)
    }
}

/// The order on fitness values is total.
pub proof fn lemma_fitness_total(a: Fitness, b: Fitness)
    ensures
        a.le_spec(b) || b.le_spec(a),
        a.le_spec(b) && b.le_spec(a) ==> a == b,
{
}

/// The order on fitness values is transitive, so the archive's best
/// fitness, non-worsening at every single admission, is non-worsening
/// across any number of generations.
pub proof fn lemma_fitness_le_trans(a: Fitness, b: Fitness, c: Fitness)
    requires
        a.le_spec(b),
        b.le_spec(c),
    ensures
        a.le_spec(c),
{
}

/// Cost of one route under a cost matrix: the sum of its consecutive legs.
pub open spec fn route_cost_spec(route: Seq<usize>, m: Matrix) -> int
    decreases route.len(),
{
    if route.len() <= 1 {
        0
    } else {
        m.at(route[0] as int, route[1] as int) + route_cost_spec(route.drop_first(), m)
    }
}

/// Total transport cost of a candidate under profile 0.
pub open spec fn total_cost_spec(ind: Individual, m: Matrix) -> int {
    routes_cost_spec(ind.routes_seq(), m)
}

pub open spec fn routes_cost_spec(rs: Seq<Seq<usize>>, m: Matrix) -> int
    decreases rs.len(),
{
    if rs.len() == 0 {
        0
    } else {
        route_cost_spec(rs[0], m) + routes_cost_spec(rs.drop_first(), m)
    }
}

/// A route's cost is non-negative and bounded by its leg count times `MAX_COST`.
pub proof fn lemma_route_cost_bound(route: Seq<usize>, m: Matrix, n: int)
    requires
        m.wf(n),
        forall|i: int| 0 <= i < route.len() ==> (#[trigger] route[i] as int) < n,
    ensures
        0 <= route_cost_spec(route, m),
        route.len() >= 1 ==> route_cost_spec(route, m) <= (route.len() - 1) * MAX_COST,
        route.len() <= 1 ==> route_cost_spec(route, m) == 0,
    decreases route.len(),
{
    if route.len() > 1 {
        lemma_route_cost_bound(route.drop_first(), m, n);
        assert(route_cost_spec(route.drop_first(), m) <= (route.len() - 2) * MAX_COST);
        assert(m.at(route[0] as int, route[1] as int) <= MAX_COST);
        assert((route.len() - 2) * MAX_COST + MAX_COST == (route.len() - 1) * MAX_COST) by (
        nonlinear_arith);
    }
}

/// Exec computation of one route's cost.
pub fn route_cost(route: &Vec<usize>, m: &Matrix, Ghost(n): Ghost<int>) -> (r: u64)
    requires
        m.wf(n),
        forall|i: int| 0 <= i < route@.len() ==> (#[trigger] route@[i] as int) < n,
        route@.len() <= MAX_JOBS,
    ensures
        r == route_cost_spec(route@, *m),
{
    proof {
        lemma_route_cost_bound(route@, *m, n);
    }
    let mut sum: u64 = 0;
    if route.len() <= 1 {
        return 0;
    }
    proof {
        assert(route@.skip(0) =~= route@);
    }
    let mut k: usize = 0;
    while k < route.len() - 1
        invariant
            route@.len() >= 2,
            k <= route@.len() - 1,
            m.wf(n),
            forall|i: int| 0 <= i < route@.len() ==> (#[trigger] route@[i] as int) < n,
            route@.len() <= MAX_JOBS,
            sum == route_cost_spec(route@, *m) - route_cost_spec(route@.skip(k as int), *m),
            sum <= (MAX_JOBS as u64) * MAX_COST,
        decreases route@.len() - k,
    {
        proof {
            lemma_route_cost_bound(route@, *m, n);
            lemma_route_cost_bound(route@.skip(k as int), *m, n);
            lemma_route_cost_bound(route@.skip(k as int + 1), *m, n);
            assert(route@.skip(k as int).drop_first() =~= route@.skip(k as int + 1));
            assert(route@.skip(k as int)[0] == route@[k as int]);
            assert(route@.skip(k as int)[1] == route@[k as int + 1]);
            assert((MAX_JOBS as int) * (MAX_COST as int) < u64::MAX) by (nonlinear_arith);
        }
        let c = m.get(route[k], route[k + 1]);
        sum = sum + c;
        k += 1;
    }
    proof {
        assert(route@.skip(route@.len() - 1).len() == 1);
        lemma_route_cost_bound(route@.skip(route@.len() - 1), *m, n);
    }
    sum
}

/// Bound on the cost of all routes of a well-formed candidate.
pub proof fn lemma_routes_cost_bound(rs: Seq<Seq<usize>>, m: Matrix, n: int)
    requires
        m.wf(n),
        forall|r: int, i: int|
            0 <= r < rs.len() && 0 <= i < rs[r].len() ==> (#[trigger] rs[r][i] as int) < n,
        forall|r: int| 0 <= r < rs.len() ==> (#[trigger] rs[r]).len() <= MAX_JOBS,
    ensures
        0 <= routes_cost_spec(rs, m) <= rs.len() * (MAX_JOBS as int) * (MAX_COST as int),
    decreases rs.len(),
{
    if rs.len() == 0 {
    } else {
        lemma_route_cost_bound(rs[0], m, n);
        assert(forall|r: int, i: int|
            0 <= r < rs.drop_first().len() && 0 <= i < rs.drop_first()[r].len() ==> (
            #[trigger] rs.drop_first()[r][i] as int) < n);
        lemma_routes_cost_bound(rs.drop_first(), m, n);
        assert(route_cost_spec(rs[0], m) <= (MAX_JOBS as int) * (MAX_COST as int)) by {
            if rs[0].len() >= 1 {
                assert((rs[0].len() - 1) * MAX_COST <= (MAX_JOBS as int) * (MAX_COST as int)) by (
                nonlinear_arith)
                    requires
                        rs[0].len() <= MAX_JOBS,
                ;
            }
        }
        assert((rs.len() - 1) * (MAX_JOBS as int) * (MAX_COST as int) + (MAX_JOBS as int) * (
        MAX_COST as int) == rs.len() * (MAX_JOBS as int) * (MAX_COST as int)) by (nonlinear_arith);
    }
}

/// Exec computation of a candidate's total cost under profile 0.
pub fn total_cost(ind: &Individual, p: &Problem) -> (r: u64)
    requires
        p.wf(),
        ind.wf(*p),
    ensures
        r == total_cost_spec(*ind, p.profiles@[0]),
{
    proof {
        lemma_wf_route_jobs(*ind, *p);
        lemma_routes_cost_bound(ind.routes_seq(), p.profiles@[0], p.n_jobs as int);
    }
    let m = &p.profiles[0];
    let mut sum: u64 = 0;
    let mut k: usize = 0;
    while k < ind.routes.len()
        invariant
            k <= ind.routes@.len(),
            p.wf(),
            ind.wf(*p),
            sum == routes_cost_spec(ind.routes_seq().skip(0).take(k as int), p.profiles@[0]),
            sum <= (k as int) * (MAX_JOBS as int) * (MAX_COST as int),
            m.wf(p.n_jobs as int),
            m == p.profiles@[0],
        decreases ind.routes@.len() - k,
    {
        proof {
            lemma_wf_route_jobs(*ind, *p);
            let rs = ind.routes_seq();
            lemma_routes_cost_take(rs, p.profiles@[0], k as int);
            assert(rs.skip(0).take(k as int) =~= rs.take(k as int));
            assert(rs.skip(0).take(k as int + 1) =~= rs.take(k as int + 1));
            lemma_route_cost_bound(rs[k as int], p.profiles@[0], p.n_jobs as int);
            lemma_routes_cost_bound(rs.take(k as int), p.profiles@[0], p.n_jobs as int);
            assert(rs.take(k as int).len() == k);
            assert((k as int) * (MAX_JOBS as int) * (MAX_COST as int) + (MAX_JOBS as int) * (
            MAX_COST as int) == (k as int + 1) * (MAX_JOBS as int) * (MAX_COST as int)) by (
            nonlinear_arith);
            assert((MAX_ROUTES as int) * (MAX_JOBS as int) * (MAX_COST as int) < u64::MAX) by (
            nonlinear_arith);
            assert(rs[k as int].len() <= MAX_JOBS);
            if rs[k as int].len() >= 1 {
                assert((rs[k as int].len() - 1) * MAX_COST <= (MAX_JOBS as int) * (
                MAX_COST as int)) by (nonlinear_arith)
                    requires
                        rs[k as int].len() <= MAX_JOBS,
                ;
            }
        }
        let c = route_cost(&ind.routes[k], m, Ghost(p.n_jobs as int));
        sum = sum + c;
        k += 1;
    }
    proof {
        let rs = ind.routes_seq();
        assert(rs.skip(0).take(rs.len() as int) =~= rs);
    }
    sum
}

/// Appending one route to a cost prefix.
pub proof fn lemma_routes_cost_take(rs: Seq<Seq<usize>>, m: Matrix, k: int)
    requires
        0 <= k < rs.len(),
    ensures
        routes_cost_spec(rs.take(k + 1), m) == routes_cost_spec(rs.take(k), m) + route_cost_spec(
            rs[k],
            m,
        ),
    decreases k,
{
    if k == 0 {
        assert(rs.take(1).drop_first() =~= Seq::<Seq<usize>>::empty());
        assert(rs.take(0) =~= Seq::<Seq<usize>>::empty());
    } else {
        assert(rs.take(k + 1).drop_first() =~= rs.drop_first().take(k));
        assert(rs.take(k).drop_first() =~= rs.drop_first().take(k - 1));
        lemma_routes_cost_take(rs.drop_first(), m, k - 1);
    }
}

/// In a well-formed candidate every routed job is a valid job id and every
/// route is within capacity and total length bounds.
pub proof fn lemma_wf_route_jobs(ind: Individual, p: Problem)
    requires
        p.wf(),
        ind.wf(p),
    ensures
        forall|r: int, i: int|
            0 <= r < ind.routes_seq().len() && 0 <= i < ind.routes_seq()[r].len() ==> (
            #[trigger] ind.routes_seq()[r][i] as int) < p.n_jobs,
        forall|r: int|
            0 <= r < ind.routes_seq().len() ==> (#[trigger] ind.routes_seq()[r]).len() <= MAX_JOBS,
        forall|i: int|
            0 <= i < ind.unassigned@.len() ==> (#[trigger] ind.unassigned@[i] as int) < p.n_jobs,
        ind.assigned_len() + ind.unassigned@.len() == p.n_jobs,
        0 <= ind.assigned_len(),
        ind.unassigned@.len() <= p.n_jobs,
        ind.unassigned@.no_duplicates(),
        forall|r: int|
            0 <= r < ind.routes@.len() ==> (#[trigger] ind.routes@[r])@ == ind.routes_seq()[r],
{
    assert forall|r: int|
        0 <= r < ind.routes@.len() implies (#[trigger] ind.routes@[r])@ == ind.routes_seq()[r] by {
        assert(ind.routes_seq()[r] == ind.routes@.map_values(|v: Vec<usize>| v@)[r]);
    }
    broadcast use vstd::seq_lib::group_to_multiset_ensures;

    let rs = ind.routes_seq();
    assert forall|r: int, i: int|
        0 <= r < rs.len() && 0 <= i < rs[r].len() implies (#[trigger] rs[r][i] as int)
        < p.n_jobs by {
        lemma_routes_ms_member(rs, r, i);
        lemma_full_jobs_count(p.n_jobs as int, rs[r][i]);
        assert(ind.jobs().count(rs[r][i]) >= 1);
    }
    assert forall|i: int| 0 <= i < ind.unassigned@.len() implies (
    #[trigger] ind.unassigned@[i] as int) < p.n_jobs by {
        assert(ind.unassigned@.contains(ind.unassigned@[i]));
        assert(ind.unassigned@.to_multiset().count(ind.unassigned@[i]) >= 1);
        lemma_full_jobs_count(p.n_jobs as int, ind.unassigned@[i]);
        assert(ind.jobs().count(ind.unassigned@[i]) >= 1);
    }
    lemma_routes_ms_len(rs);
    assert(full_jobs(p.n_jobs as int).len() == p.n_jobs) by {
        assert(Seq::new(p.n_jobs as nat, |i: int| i as usize).len() == p.n_jobs);
    }
    assert(ind.jobs().len() == routes_ms(rs).len() + ind.unassigned@.to_multiset().len());
    assert forall|r: int| 0 <= r < rs.len() implies (#[trigger] rs[r]).len() <= MAX_JOBS by {
        lemma_routes_ms_sub(rs, r);
        assert(rs[r].len() == rs[r].to_multiset().len());
        assert(routes_ms(rs).len() <= ind.jobs().len());
    }
    assert(ind.unassigned@.no_duplicates()) by {
        if !ind.unassigned@.no_duplicates() {
            let (i1, i2) = choose|i1: int, i2: int|
                0 <= i1 < i2 < ind.unassigned@.len() && ind.unassigned@[i1] == ind.unassigned@[i2];
            assert(0 <= i1 < i2 < ind.unassigned@.len() && ind.unassigned@[i1]
                == ind.unassigned@[i2]);
            let x = ind.unassigned@[i1];
            let s1 = ind.unassigned@.remove(i2);
            assert(s1.to_multiset() =~= ind.unassigned@.to_multiset().remove(x));
            assert(s1[i1] == x);
            assert(s1.contains(x));
            assert(s1.to_multiset().count(x) >= 1);
            assert(ind.unassigned@.to_multiset().count(x) >= 2);
            lemma_full_jobs_count(p.n_jobs as int, x);
            assert(ind.jobs().count(x) >= 2);
        }
    }
}

/// The whole multiset holds at least as many of `x` as any single route.
pub proof fn lemma_routes_ms_count_ge(rs: Seq<Seq<usize>>, r: int, x: usize)
    requires
        0 <= r < rs.len(),
    ensures
        routes_ms(rs).count(x) >= rs[r].to_multiset().count(x),
    decreases r,
{
    if r == 0 {
    } else {
        lemma_routes_ms_count_ge(rs.drop_first(), r - 1, x);
    }
}

/// The whole multiset holds at least as many of `x` as any two distinct
/// routes together.
pub proof fn lemma_routes_ms_count_two(rs: Seq<Seq<usize>>, r1: int, r2: int, x: usize)
    requires
        0 <= r1 < r2 < rs.len(),
    ensures
        routes_ms(rs).count(x) >= rs[r1].to_multiset().count(x) + rs[r2].to_multiset().count(x),
    decreases r1,
{
    if r1 == 0 {
        lemma_routes_ms_count_ge(rs.drop_first(), r2 - 1, x);
    } else {
        lemma_routes_ms_count_two(rs.drop_first(), r1 - 1, r2 - 1, x);
    }
}

/// The same job at two distinct positions is counted at least twice.
pub proof fn lemma_routes_ms_two_pos(rs: Seq<Seq<usize>>, t1: int, k1: int, t2: int, k2: int)
    requires
        0 <= t1 < rs.len(),
        0 <= t2 < rs.len(),
        0 <= k1 < rs[t1].len(),
        0 <= k2 < rs[t2].len(),
        (t1, k1) != (t2, k2),
        rs[t1][k1] == rs[t2][k2],
    ensures
        routes_ms(rs).count(rs[t1][k1]) >= 2,
{
    broadcast use vstd::seq_lib::group_to_multiset_ensures;

    let x = rs[t1][k1];
    if t1 == t2 {
        let s = rs[t1];
        let (a, b) = if k1 < k2 {
            (k1, k2)
        } else {
            (k2, k1)
        };
        assert(s.remove(b).to_multiset() =~= s.to_multiset().remove(x));
        assert(s.remove(b)[a] == x);
        assert(s.remove(b).contains(x));
        assert(s.to_multiset().remove(x).count(x) >= 1);
        assert(s.to_multiset().count(x) >= 2);
        lemma_routes_ms_count_ge(rs, t1, x);
    } else {
        let (a, b) = if t1 < t2 {
            (t1, t2)
        } else {
            (t2, t1)
        };
        assert(rs[a].contains(x));
        assert(rs[b].contains(x));
        assert(rs[a].to_multiset().count(x) >= 1);
        assert(rs[b].to_multiset().count(x) >= 1);
        lemma_routes_ms_count_two(rs, a, b, x);
    }
}

/// A counted job sits at some position.
pub proof fn lemma_routes_ms_count_member(rs: Seq<Seq<usize>>, x: usize) -> (pos: (int, int))
    requires
        routes_ms(rs).count(x) >= 1,
    ensures
        0 <= pos.0 < rs.len(),
        0 <= pos.1 < rs[pos.0].len(),
        rs[pos.0][pos.1] == x,
    decreases rs.len(),
{
    broadcast use vstd::seq_lib::group_to_multiset_ensures;

    if rs[0].to_multiset().count(x) >= 1 {
        assert(rs[0].contains(x));
        let k = choose|k: int| 0 <= k < rs[0].len() && rs[0][k] == x;
        (0, k)
    } else {
        let pos = lemma_routes_ms_count_member(rs.drop_first(), x);
        (pos.0 + 1, pos.1)
    }
}

/// Walking a sequence of routes along distinct indices holds no more of any
/// job than the whole sequence does.
pub proof fn lemma_routes_ms_mapped_le(
    rs: Seq<Seq<usize>>,
    idx: Seq<int>,
    mapped: Seq<Seq<usize>>,
    x: usize,
)
    requires
        idx.no_duplicates(),
        forall|t: int| 0 <= t < idx.len() ==> 0 <= #[trigger] idx[t] < rs.len(),
        mapped.len() == idx.len(),
        forall|t: int| 0 <= t < idx.len() ==> #[trigger] mapped[t] == rs[idx[t]],
    ensures
        routes_ms(mapped).count(x) <= routes_ms(rs).count(x),
    decreases idx.len(),
{
    broadcast use vstd::seq_lib::group_to_multiset_ensures;

    if idx.len() == 0 {
    } else {
        let i0 = idx[0];
        let empty_route = Seq::<usize>::empty();
        let rs2 = rs.update(i0, empty_route);
        lemma_routes_ms_update(rs, i0, empty_route);
        assert(!empty_route.contains(x));
        assert(empty_route.to_multiset().count(x) == 0);
        assert(routes_ms(rs2).add(rs[i0].to_multiset()).count(x) == routes_ms(rs).add(
            empty_route.to_multiset(),
        ).count(x));
        assert(routes_ms(rs2).count(x) + rs[i0].to_multiset().count(x) == routes_ms(rs).count(x));
        let idx2 = idx.drop_first();
        assert(forall|t: int| 0 <= t < idx2.len() ==> #[trigger] idx2[t] != i0);
        lemma_routes_ms_mapped_le(rs2, idx2, mapped.drop_first(), x);
        assert(mapped[0] == rs[i0]);
        assert(routes_ms(mapped).count(x) == rs[i0].to_multiset().count(x) + routes_ms(
            mapped.drop_first(),
        ).count(x));
    }
}

/// A duplicate-free index list as long as the range it draws from covers
/// every value of that range.
pub proof fn lemma_no_dup_covers(s: Seq<usize>, n: int, v: usize)
    requires
        s.no_duplicates(),
        s.len() == n,
        forall|i: int| 0 <= i < s.len() ==> (#[trigger] s[i] as int) < n,
        0 <= (v as int) < n,
    ensures
        s.contains(v),
{
    let si = s.map_values(|u: usize| u as int);
    assert(si.no_duplicates()) by {
        assert forall|a: int, b: int|
            0 <= a < si.len() && 0 <= b < si.len() && a != b implies si[a] != si[b] by {
            assert(s[a] != s[b]);
        }
    }
    si.unique_seq_to_set();
    let range = vstd::set_lib::set_int_range(0, n);
    vstd::set_lib::lemma_int_range(0, n);
    if !s.contains(v) {
        assert(!si.to_set().contains(v as int)) by {
            if si.to_set().contains(v as int) {
                let t = choose|t: int| 0 <= t < si.len() && si[t] == v as int;
                assert(s[t] == v);
                assert(s.contains(v));
            }
        }
        let small = range.remove(v as int);
        assert(si.to_set().subset_of(small)) by {
            assert forall|y: int| si.to_set().contains(y) implies small.contains(y) by {
                let t = choose|t: int| 0 <= t < si.len() && si[t] == y;
                assert(0 <= y < n);
                assert(y != v as int);
            }
        }
        assert(small.len() == n - 1);
        vstd::set_lib::lemma_len_subset(si.to_set(), small);
        assert(false);
    }
}

/// The number of jobs held by routes equals the sum of the route lengths.
pub proof fn lemma_routes_ms_len(rs: Seq<Seq<usize>>)
    ensures
        routes_ms(rs).len() == routes_total_len(rs),
        routes_total_len(rs) >= 0,
    decreases rs.len(),
{
    broadcast use vstd::seq_lib::group_to_multiset_ensures;

    if rs.len() > 0 {
        lemma_routes_ms_len(rs.drop_first());
    }
}

/// An explicit deep copy of a candidate, with every view provably equal.
pub fn copy_individual(ind: &Individual) -> (r: Individual)
    ensures
        r.routes@.len() == ind.routes@.len(),
        forall|t: int| 0 <= t < r.routes@.len() ==> (#[trigger] r.routes@[t])@ == ind.routes@[t]@,
        r.routes_seq() == ind.routes_seq(),
        r.unassigned@ == ind.unassigned@,
        r.jobs() == ind.jobs(),
        r.assigned_len() == ind.assigned_len(),
{
    let mut routes: Vec<Vec<usize>> = Vec::new();
    let mut k: usize = 0;
    while k < ind.routes.len()
        invariant
            k <= ind.routes@.len(),
            routes@.len() == k,
            forall|t: int| 0 <= t < k ==> (#[trigger] routes@[t])@ == ind.routes@[t]@,
        decreases ind.routes@.len() - k,
    {
        let mut route: Vec<usize> = Vec::new();
        let mut q: usize = 0;
        while q < ind.routes[k].len()
            invariant
                k < ind.routes@.len(),
                q <= ind.routes@[k as int]@.len(),
                route@ =~= ind.routes@[k as int]@.take(q as int),
            decreases ind.routes@[k as int]@.len() - q,
        {
            route.push(ind.routes[k][q]);
            q += 1;
        }
        proof {
            assert(route@ =~= ind.routes@[k as int]@);
        }
        routes.push(route);
        k += 1;
    }
    let mut unassigned: Vec<usize> = Vec::new();
    let mut u: usize = 0;
    while u < ind.unassigned.len()
        invariant
            u <= ind.unassigned@.len(),
            unassigned@ =~= ind.unassigned@.take(u as int),
        decreases ind.unassigned@.len() - u,
    {
        unassigned.push(ind.unassigned[u]);
        u += 1;
    }
    proof {
        assert(unassigned@ =~= ind.unassigned@);
    }
    let r = Individual { routes, unassigned };
    proof {
        assert(r.routes_seq() =~= ind.routes_seq());
    }
    r
}

/// One route's multiset is included in the whole (stated through lengths).
pub proof fn lemma_routes_ms_sub(rs: Seq<Seq<usize>>, r: int)
    requires
        0 <= r < rs.len(),
    ensures
        rs[r].to_multiset().len() <= routes_ms(rs).len(),
    decreases r,
{
    broadcast use vstd::seq_lib::group_to_multiset_ensures;

    if r == 0 {
    } else {
        lemma_routes_ms_sub(rs.drop_first(), r - 1);
    }
}

} // verus!
