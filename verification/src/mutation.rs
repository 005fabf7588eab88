//! The composable mutation framework.
//!
//! A mutation is one ruin step followed by one recreate step; both steps are
//! picked by weight from configured lists.  Whatever combination runs, the
//! candidate keeps exactly the same multiset of jobs: mutations move work
//! between routes and the unassigned list, never create or drop it.

use vstd::prelude::*;
use crate::model::{Problem, Individual};
use crate::rng::Rng;
use crate::select::{select_weighted, sum_weights};
use crate::ruin::{AdjustedStringRemoval, NeighbourRemoval, RandomJobRemoval, RandomRouteRemoval, WorstJobRemoval};
use crate::cluster::ClusterRemoval;
use crate::recreate::{RecreateWithCheapest, RecreateWithRegret, RecreateWithBlinks, RecreateWithGaps, RecreateWithNearestNeighbor};

verus! {

/// One ruin operator, any variant.
pub enum RuinStrategy {
    AdjustedString(AdjustedStringRemoval),
    Neighbour(NeighbourRemoval),
    RandomJob(RandomJobRemoval),
    RandomRoute(RandomRouteRemoval),
    WorstJob(WorstJobRemoval),
    Cluster(ClusterRemoval),
}

impl RuinStrategy {
    pub open spec fn wf(self) -> bool {
        match self {
            RuinStrategy::AdjustedString(_) => true,
            RuinStrategy::Neighbour(s) => s.limit.wf(),
            RuinStrategy::RandomJob(s) => s.limit.wf(),
            RuinStrategy::RandomRoute(s) => s.limit.wf(),
            RuinStrategy::WorstJob(s) => s.limit.wf(),
            RuinStrategy::Cluster(s) => s.wf(),
        }
    }

    /// Removes a strategy-chosen subset of assigned jobs.  No job is
    /// created or lost, and each variant moves work per its own contract.
    pub fn run(&self, rng: &mut Rng, p: &Problem, ind: &mut Individual)
        requires
            p.wf(),
            old(ind).wf(*p),
            self.wf(),
        ensures
            final(ind).wf(*p),
            final(ind).jobs() == old(ind).jobs(),
            final(ind).unassigned@.len() >= old(ind).unassigned@.len(),
            match *self {
                RuinStrategy::RandomJob(st) => final(ind).unassigned@.len()
                    == old(ind).unassigned@.len() + st.limit.removal_count_spec(
                    old(ind).assigned_len(),
                ),
                RuinStrategy::Neighbour(st) => final(ind).unassigned@.len()
                    == old(ind).unassigned@.len() + st.limit.removal_count_spec(
                    old(ind).assigned_len(),
                ),
                RuinStrategy::WorstJob(st) => final(ind).unassigned@.len()
                    == old(ind).unassigned@.len() + ({
                    let a = old(ind).assigned_len();
                    let c = st.limit.removal_count_spec(a);
                    let avail = if a > st.skip {
                        a - st.skip
                    } else {
                        0int
                    };
                    if c < avail {
                        c
                    } else {
                        avail
                    }
                }),
                RuinStrategy::AdjustedString(st) => (old(ind).assigned_len() > 0
                    ==> final(ind).unassigned@.len() > old(ind).unassigned@.len())
                    && final(ind).unassigned@.len() <= old(ind).unassigned@.len() + (if st.cavg
                    == 0 {
                    1int
                } else {
                    st.cavg as int
                }) * (if st.lmax == 0 {
                    1int
                } else {
                    st.lmax as int
                }),
                RuinStrategy::RandomRoute(st) => exists|picked: Seq<int>|
                    picked.no_duplicates() && picked.len() == st.limit.removal_count_spec(
                        p.n_routes as int,
                    ) && (forall|t: int|
                        0 <= t < picked.len() ==> 0 <= #[trigger] picked[t] < p.n_routes
                            && final(ind).routes@[picked[t]]@.len() == 0) && (forall|r2: int|
                        0 <= r2 < p.n_routes && !picked.contains(r2) ==> final(ind).routes@[r2]
                            == old(ind).routes@[r2]),
                RuinStrategy::Cluster(st) => final(ind).unassigned@.len()
                    <= old(ind).unassigned@.len() + st.limit.removal_count_spec(
                    old(ind).assigned_len(),
                ),
            },
    {
        proof {
            crate::model::lemma_routes_total_len_prefix(ind.routes_seq(), 0);
        }
        match self {
            RuinStrategy::AdjustedString(s) => s.run(rng, p, ind),
            RuinStrategy::Neighbour(s) => s.run(rng, p, ind),
            RuinStrategy::RandomJob(s) => s.run(rng, p, ind),
            RuinStrategy::RandomRoute(s) => s.run(rng, p, ind),
            RuinStrategy::WorstJob(s) => s.run(rng, p, ind),
            RuinStrategy::Cluster(s) => s.run(rng, p, ind),
        }
    }
}

/// One recreate operator, any variant.
#[derive(Clone, Copy)]
pub enum RecreateStrategy {
    Cheapest(RecreateWithCheapest),
    Regret(RecreateWithRegret),
    Blinks(RecreateWithBlinks),
    Gaps(RecreateWithGaps),
    Nearest(RecreateWithNearestNeighbor),
}

impl RecreateStrategy {
    pub open spec fn wf(self) -> bool {
        match self {
            RecreateStrategy::Regret(s) => 1 <= s.start <= s.end,
            _ => true,
        }
    }

    /// Reinserts unassigned jobs.  Total: never fails, never grows the
    /// unassigned list, and leaves nothing unassigned when the fleet can
    /// hold every job.
    pub fn run(&self, rng: &mut Rng, p: &Problem, ind: &mut Individual)
        requires
            p.wf(),
            old(ind).wf(*p),
            self.wf(),
        ensures
            final(ind).wf(*p),
            final(ind).jobs() == old(ind).jobs(),
            final(ind).unassigned@.len() <= old(ind).unassigned@.len(),
            final(ind).unassigned@.len() > 0 ==> crate::recreate::all_routes_full(
                *final(ind),
                *p,
            ),
            p.n_jobs <= p.n_routes * p.capacity ==> final(ind).unassigned@.len() == 0,
    {
        match self {
            RecreateStrategy::Cheapest(s) => s.run(rng, p, ind),
            RecreateStrategy::Regret(s) => s.run(rng, p, ind),
            RecreateStrategy::Blinks(s) => s.run(rng, p, ind),
            RecreateStrategy::Gaps(s) => s.run(rng, p, ind),
            RecreateStrategy::Nearest(s) => s.run(rng, p, ind),
        }
    }
}

/// An ordered list of ruin methods, each with an application probability in
/// thousandths, plus the group's selection weight.
pub struct RuinGroup {
    pub methods: Vec<(RuinStrategy, u32)>,
    pub weight: usize,
}

impl RuinGroup {
    /// At least one method, well-formed methods, bounded weight.
    pub open spec fn wf(self) -> bool {
        &&& self.methods@.len() >= 1
        &&& forall|i: int| 0 <= i < self.methods@.len() ==> (#[trigger] self.methods@[i]).0.wf()
        &&& self.weight <= 0xFFFF_FFFF
    }

    /// Runs each method of the group with its configured probability.
    pub fn run(&self, rng: &mut Rng, p: &Problem, ind: &mut Individual)
        requires
            p.wf(),
            old(ind).wf(*p),
            self.wf(),
        ensures
            final(ind).wf(*p),
            final(ind).jobs() == old(ind).jobs(),
            final(ind).unassigned@.len() >= old(ind).unassigned@.len(),
    {
        let mut i: usize = 0;
        while i < self.methods.len()
            invariant
                i <= self.methods@.len(),
                p.wf(),
                ind.wf(*p),
                self.wf(),
                ind.jobs() == old(ind).jobs(),
                ind.unassigned@.len() >= old(ind).unassigned@.len(),
            decreases self.methods@.len() - i,
        {
            let prob = self.methods[i].1;
            if rng.permille() < prob {
                let m = &self.methods[i].0;
                m.run(rng, p, ind);
            }
            i += 1;
        }
    }
}

/// Picks one ruin group by weight and applies it.
pub struct CompositeRuin {
    pub groups: Vec<RuinGroup>,
}

impl CompositeRuin {
    pub open spec fn wf(self) -> bool {
        &&& 1 <= self.groups@.len() <= 1024
        &&& forall|i: int| 0 <= i < self.groups@.len() ==> (#[trigger] self.groups@[i]).wf()
        &&& sum_weights(self.groups@.map_values(|g: RuinGroup| g.weight as u64)) > 0
    }

    pub fn new(groups: Vec<RuinGroup>) -> (r: CompositeRuin)
        ensures
            r.groups == groups,
    {
        CompositeRuin { groups }
    }

    /// No job is created or lost, whichever group runs.
    pub fn run(&self, rng: &mut Rng, p: &Problem, ind: &mut Individual)
        requires
            p.wf(),
            old(ind).wf(*p),
            self.wf(),
        ensures
            final(ind).wf(*p),
            final(ind).jobs() == old(ind).jobs(),
            final(ind).unassigned@.len() >= old(ind).unassigned@.len(),
    {
        let ghost wspec = self.groups@.map_values(|g: RuinGroup| g.weight as u64);
        let mut ws: Vec<u64> = Vec::new();
        let mut i: usize = 0;
        while i < self.groups.len()
            invariant
                i <= self.groups@.len(),
                self.wf(),
                wspec == self.groups@.map_values(|g: RuinGroup| g.weight as u64),
                ws@ =~= wspec.take(i as int),
            decreases self.groups@.len() - i,
        {
            ws.push(self.groups[i].weight as u64);
            proof {
                assert(ws@ =~= wspec.take(i + 1));
            }
            i += 1;
        }
        proof {
            assert(ws@ =~= wspec);
            lemma_weights_bounded(wspec, 0xFFFF_FFFFu64);
        }
        let g = select_weighted(rng, &ws);
        self.groups[g].run(rng, p, ind);
    }
}

/// A weight list with bounded entries has a bounded sum.
proof fn lemma_weights_bounded(ws: Seq<u64>, b: u64)
    requires
        forall|i: int| 0 <= i < ws.len() ==> (#[trigger] ws[i]) <= b,
    ensures
        sum_weights(ws) <= ws.len() * b,
    decreases ws.len(),
{
    if ws.len() == 0 {
    } else {
        lemma_weights_bounded(ws.drop_first(), b);
        assert((ws.len() - 1) * b + b == ws.len() * b) by (nonlinear_arith);
    }
}

/// Picks one recreate method by weight and applies it.
pub struct CompositeRecreate {
    pub methods: Vec<(RecreateStrategy, usize)>,
}

impl CompositeRecreate {
    pub open spec fn wf(self) -> bool {
        &&& 1 <= self.methods@.len() <= 1024
        &&& forall|i: int| 0 <= i < self.methods@.len() ==> (#[trigger] self.methods@[i]).0.wf()
        &&& forall|i: int| 0 <= i < self.methods@.len() ==> (#[trigger] self.methods@[i]).1 <= 0xFFFF_FFFF
        &&& sum_weights(self.methods@.map_values(|m: (RecreateStrategy, usize)| m.1 as u64)) > 0
    }

    pub fn new(methods: Vec<(RecreateStrategy, usize)>) -> (r: CompositeRecreate)
        ensures
            r.methods == methods,
    {
        CompositeRecreate { methods }
    }

    /// Total recreate: the chosen method reinserts everything it can.
    pub fn run(&self, rng: &mut Rng, p: &Problem, ind: &mut Individual)
        requires
            p.wf(),
            old(ind).wf(*p),
            self.wf(),
        ensures
            final(ind).wf(*p),
            final(ind).jobs() == old(ind).jobs(),
            final(ind).unassigned@.len() <= old(ind).unassigned@.len(),
            final(ind).unassigned@.len() > 0 ==> crate::recreate::all_routes_full(
                *final(ind),
                *p,
            ),
            p.n_jobs <= p.n_routes * p.capacity ==> final(ind).unassigned@.len() == 0,
    {
        let ghost wspec = self.methods@.map_values(|m: (RecreateStrategy, usize)| m.1 as u64);
        let mut ws: Vec<u64> = Vec::new();
        let mut i: usize = 0;
        while i < self.methods.len()
            invariant
                i <= self.methods@.len(),
                self.wf(),
                wspec == self.methods@.map_values(|m: (RecreateStrategy, usize)| m.1 as u64),
                ws@ =~= wspec.take(i as int),
            decreases self.methods@.len() - i,
        {
            ws.push(self.methods[i].1 as u64);
            proof {
                assert(ws@ =~= wspec.take(i + 1));
            }
            i += 1;
        }
        proof {
            assert(ws@ =~= wspec);
            lemma_weights_bounded(wspec, 0xFFFF_FFFFu64);
        }
        let m = select_weighted(rng, &ws);
        self.methods[m].0.run(rng, p, ind);
    }
}

/// One mutation step: ruin, then recreate.
pub struct RuinAndRecreateMutation {
    pub recreate: CompositeRecreate,
    pub ruin: CompositeRuin,
}

impl RuinAndRecreateMutation {
    pub open spec fn wf(self) -> bool {
        &&& self.recreate.wf()
        &&& self.ruin.wf()
    }

    pub fn new(recreate: CompositeRecreate, ruin: CompositeRuin) -> (r: RuinAndRecreateMutation)
        ensures
            r.recreate == recreate,
            r.ruin == ruin,
    {
        RuinAndRecreateMutation { recreate, ruin }
    }

    /// One mutation never creates or loses a job, and hands back a
    /// fully-assigned candidate whenever the fleet can hold every job.
    pub fn mutate(&self, rng: &mut Rng, p: &Problem, ind: &mut Individual)
        requires
            p.wf(),
            old(ind).wf(*p),
            self.wf(),
        ensures
            final(ind).wf(*p),
            final(ind).jobs() == old(ind).jobs(),
            final(ind).unassigned@.len() > 0 ==> crate::recreate::all_routes_full(
                *final(ind),
                *p,
            ),
            p.n_jobs <= p.n_routes * p.capacity ==> final(ind).unassigned@.len() == 0,
    {
        self.ruin.run(rng, p, ind);
        self.recreate.run(rng, p, ind);
    }
}

} // verus!
