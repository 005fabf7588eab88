//! The population / diversity archive.
//!
//! Two interchangeable strategies behind one contract — `add`, `select`,
//! `best`.  Elitism keeps the best candidates by fitness and truncates;
//! Rosomaxa keeps a small elite beside a self-organizing grid of nodes
//! indexed by solution features, trading some fitness for diversity.  Both
//! guarantee that the best-known fitness never worsens on insertion.

use vstd::prelude::*;
use crate::model::{Problem, Individual, Fitness, copy_individual};
use crate::rng::Rng;

verus! {

/// A simple elitist archive: the best `max_size` candidates by fitness.
pub struct Elitism {
    pub max_size: usize,
    pub entries: Vec<(Individual, Fitness)>,
}

impl Elitism {
    /// Sorted best-first by fitness.
    pub open spec fn sorted_spec(self) -> bool {
        forall|i: int, j: int|
            0 <= i < j < self.entries@.len() ==> (#[trigger] self.entries@[i]).1.le_spec(
                (#[trigger] self.entries@[j]).1,
            )
    }

    /// Entries are sorted best-first, bounded by `max_size`, and each
    /// stored fitness matches its candidate's unassigned count and cost.
    pub open spec fn wf(self, p: Problem) -> bool {
        &&& self.max_size >= 1
        &&& self.entries@.len() <= self.max_size
        &&& self.sorted_spec()
        &&& forall|i: int| 0 <= i < self.entries@.len() ==> (#[trigger] self.entries@[i]).0.wf(p)
        &&& forall|i: int|
            0 <= i < self.entries@.len() ==> (#[trigger] self.entries@[i]).1.unassigned == self.entries@[i].0.unassigned@.len()
        &&& forall|i: int|
            0 <= i < self.entries@.len() ==> (#[trigger] self.entries@[i]).1.cost
                == crate::model::total_cost_spec(self.entries@[i].0, p.profiles@[0])
    }

    /// The best fitness held.
    pub open spec fn best_fitness(self) -> Fitness {
        self.entries@[0].1
    }

    pub fn new(max_size: usize, p: &Problem) -> (r: Elitism)
        requires
            max_size >= 1,
        ensures
            r.wf(*p),
            r.entries@.len() == 0,
            r.max_size == max_size,
    {
        Elitism { max_size, entries: Vec::new() }
    }

    /// Admits a candidate.  The archive never shrinks below one entry, and
    /// the best-known fitness never worsens: it stays at least as good as
    /// both the previous best and the inserted fitness.
    pub fn add(&mut self, ind: Individual, fit: Fitness, p: &Problem)
        requires
            old(self).wf(*p),
            ind.wf(*p),
            fit.unassigned == ind.unassigned@.len(),
            fit.cost == crate::model::total_cost_spec(ind, p.profiles@[0]),
        ensures
            final(self).wf(*p),
            final(self).entries@.len() >= 1,
            final(self).max_size == old(self).max_size,
            final(self).best_fitness().le_spec(fit),
            old(self).entries@.len() >= 1 ==> final(self).best_fitness().le_spec(
                old(self).best_fitness(),
            ),
    {
        // find the first position whose fitness is worse than the new one
        let mut idx: usize = 0;
        while idx < self.entries.len() && !fit.le(&self.entries[idx].1)
            invariant
                idx <= self.entries@.len(),
                old(self).wf(*p),
                self == old(self),
                forall|i: int| 0 <= i < idx ==> !fit.le_spec((#[trigger] self.entries@[i]).1),
            decreases self.entries@.len() - idx,
        {
            idx += 1;
        }
        let ghost pre = self.entries@;
        self.entries.insert(idx, (ind, fit));
        proof {
            assert forall|i: int, j: int|
                0 <= i < j < self.entries@.len() implies (#[trigger] self.entries@[i]).1.le_spec(
                (#[trigger] self.entries@[j]).1,
            ) by {
                crate::model::lemma_fitness_total(fit, pre[if i < idx {
                    i
                } else {
                    i - 1
                }].1);
                if j > idx {
                    crate::model::lemma_fitness_total(fit, pre[j - 1].1);
                }
                if i < idx {
                    crate::model::lemma_fitness_total(fit, pre[i].1);
                }
            }
        }
        if self.entries.len() > self.max_size {
            let ghost before_pop = self.entries@;
            let _ = self.entries.pop();
            proof {
                assert(self.entries@ =~= before_pop.take(before_pop.len() - 1));
            }
        }
        proof {
            if idx == 0 {
                assert(self.entries@[0].1 == fit);
            } else {
                assert(self.entries@[0].1 == pre[0].1);
                assert(!fit.le_spec(pre[0].1));
                crate::model::lemma_fitness_total(fit, pre[0].1);
            }
        }
    }

    /// The best candidate held.
    pub fn best(&self) -> (r: &(Individual, Fitness))
        requires
            self.entries@.len() >= 1,
            self.sorted_spec(),
        ensures
            *r == self.entries@[0],
            r.1 == self.best_fitness(),
            forall|i: int|
                0 <= i < self.entries@.len() ==> r.1.le_spec((#[trigger] self.entries@[i]).1),
    {
        &self.entries[0]
    }

    /// Picks one parent for mutation, biased toward the elite front.
    pub fn select(&self, rng: &mut Rng) -> (r: usize)
        requires
            self.entries@.len() >= 1,
        ensures
            r < self.entries@.len(),
    {
        // half the draws take the best entry, the rest are uniform
        if rng.permille() < 500 {
            0
        } else {
            rng.below(self.entries.len())
        }
    }
}

/// Tuning parameters of the Rosomaxa archive.
#[derive(Clone, Copy)]
pub struct RosomaxaConfig {
    /// How many candidates one `select` call may hand out.
    pub selection_size: usize,
    /// Capacity of the elite front.
    pub max_elite_size: usize,
    /// Capacity of one grid node.
    pub max_node_size: usize,
    /// Coordinate spread of the grid, in thousandths.
    pub spread_factor_permille: u32,
    /// Fraction of rarely hit nodes dropped on a rebalance, in thousandths.
    pub reduction_factor_permille: u32,
    /// Coordinate bucketing factor, in thousandths.
    pub distribution_factor_permille: u32,
    /// How strongly node coordinates move toward new samples, thousandths.
    pub learning_rate_permille: u32,
    /// How many recent insertions keep a node alive.
    pub hit_memory: usize,
    /// Insertions between two grid reorganizations.
    pub rebalance_count: usize,
    /// Probability of returning a diverse rather than elite candidate,
    /// in thousandths.
    pub exploration_ratio_permille: u32,
}

impl RosomaxaConfig {
    pub open spec fn wf(self) -> bool {
        &&& self.selection_size >= 1
        &&& self.max_elite_size >= 1
        &&& self.max_node_size >= 1
        &&& self.rebalance_count >= 1
    }
}

/// One grid node: candidates whose feature coordinates fall together.
pub struct Node {
    pub coord: (u64, u64),
    pub entries: Vec<(Individual, Fitness)>,
    pub hits: u64,
}

/// A self-organizing archive: an elite front plus a grid of nodes indexed
/// by solution features (unassigned count, bucketed cost), which keeps
/// structurally diverse candidates alive beside the best ones.
pub struct Rosomaxa {
    pub config: RosomaxaConfig,
    pub elite: Elitism,
    pub nodes: Vec<Node>,
    pub adds: usize,
}

impl Rosomaxa {
    pub open spec fn wf(self, p: Problem) -> bool {
        &&& self.config.wf()
        &&& self.elite.wf(p)
        &&& self.elite.max_size == self.config.max_elite_size
        &&& forall|i: int|
            0 <= i < self.nodes@.len() ==> (#[trigger] self.nodes@[i]).entries@.len()
                <= self.config.max_node_size
        &&& forall|i: int, k: int|
            0 <= i < self.nodes@.len() && 0 <= k < self.nodes@[i].entries@.len() ==> (
            #[trigger] self.nodes@[i].entries@[k]).0.wf(p)
    }

    pub open spec fn best_fitness(self) -> Fitness {
        self.elite.best_fitness()
    }

    pub fn new(config: RosomaxaConfig, p: &Problem) -> (r: Rosomaxa)
        requires
            config.wf(),
        ensures
            r.wf(*p),
            r.elite.entries@.len() == 0,
            r.config == config,
    {
        let elite = Elitism::new(config.max_elite_size, p);
        Rosomaxa { config, elite, nodes: Vec::new(), adds: 0 }
    }

    /// The feature coordinates of a fitness value.
    fn coord_of(&self, fit: &Fitness) -> (u64, u64) {
        let bucket = 1 + self.config.distribution_factor_permille as u64;
        (fit.unassigned as u64, fit.cost / bucket)
    }

    /// Moves `from` toward `to` by the learning rate, in thousandths.
    fn learn(&self, from: u64, to: u64) -> (r: u64) {
        let lr = if self.config.learning_rate_permille > 1000 {
            1000u64
        } else {
            self.config.learning_rate_permille as u64
        };
        if to >= from {
            let diff = to - from;
            proof {
                assert((diff as int) * (lr as int) < 0x1_0000_0000_0000_0000_0000int
                    && (diff as int) * (lr as int) / 1000 <= diff as int) by (nonlinear_arith)
                    requires
                        0 <= lr <= 1000,
                        0 <= diff <= 0xFFFF_FFFF_FFFF_FFFFu64,
                ;
            }
            let step = (((diff as u128) * (lr as u128)) / 1000) as u64;
            from + step
        } else {
            let diff = from - to;
            proof {
                assert((diff as int) * (lr as int) < 0x1_0000_0000_0000_0000_0000int
                    && (diff as int) * (lr as int) / 1000 <= diff as int) by (nonlinear_arith)
                    requires
                        0 <= lr <= 1000,
                        0 <= diff <= 0xFFFF_FFFF_FFFF_FFFFu64,
                ;
            }
            let step = (((diff as u128) * (lr as u128)) / 1000) as u64;
            from - step
        }
    }

    /// Admits a candidate into the elite front and its grid node.  The
    /// best-known fitness never worsens: the elite keeps every improvement.
    pub fn add(&mut self, ind: Individual, fit: Fitness, p: &Problem)
        requires
            old(self).wf(*p),
            ind.wf(*p),
            fit.unassigned == ind.unassigned@.len(),
            fit.cost == crate::model::total_cost_spec(ind, p.profiles@[0]),
        ensures
            final(self).wf(*p),
            final(self).elite.entries@.len() >= 1,
            final(self).config == old(self).config,
            final(self).best_fitness().le_spec(fit),
            old(self).elite.entries@.len() >= 1 ==> final(self).best_fitness().le_spec(
                old(self).best_fitness(),
            ),
    {
        let copy = copy_individual(&ind);
        proof {
            assert(copy.wf(*p));
            assert(copy.unassigned@.len() == ind.unassigned@.len());
            assert(crate::model::total_cost_spec(copy, p.profiles@[0])
                == crate::model::total_cost_spec(ind, p.profiles@[0]));
        }
        self.elite.add(copy, fit, p);
        // place the original into the grid node nearest to its features
        let coord = self.coord_of(&fit);
        let mut i: usize = 0;
        let mut found = false;
        let mut at: usize = 0;
        let mut best_d: u64 = 0;
        while i < self.nodes.len()
            invariant
                i <= self.nodes@.len(),
                found ==> at < self.nodes@.len(),
            decreases self.nodes@.len() - i,
        {
            let c = self.nodes[i].coord;
            let d0 = if c.0 >= coord.0 {
                c.0 - coord.0
            } else {
                coord.0 - c.0
            };
            let d1 = if c.1 >= coord.1 {
                c.1 - coord.1
            } else {
                coord.1 - c.1
            };
            let d = if d0 <= u64::MAX - d1 {
                d0 + d1
            } else {
                u64::MAX
            };
            if !found || d < best_d {
                found = true;
                at = i;
                best_d = d;
            }
            i += 1;
        }
        // a sample too far from every node founds a new one; the spread
        // factor widens how far a node's influence reaches
        let reach = self.config.spread_factor_permille as u64;
        if found && best_d > reach {
            found = false;
        }
        if found {
            let mut node = self.nodes.remove(at);
            // the node's coordinates adapt toward the sample
            node.coord = (self.learn(node.coord.0, coord.0), self.learn(node.coord.1, coord.1));
            node.entries.insert(0, (ind, fit));
            if node.entries.len() > self.config.max_node_size {
                let ghost before_pop = node.entries@;
                let _ = node.entries.pop();
                proof {
                    assert(node.entries@ =~= before_pop.take(before_pop.len() - 1));
                }
            }
            // the hit memory caps how much history one node may carry
            let hit_cap = if self.config.hit_memory > 0 {
                self.config.hit_memory as u64
            } else {
                1u64
            };
            node.hits = if node.hits < hit_cap {
                node.hits + 1
            } else {
                node.hits
            };
            let ghost gnode = node;
            self.nodes.insert(at, node);
            proof {
                assert forall|t: int, k: int|
                    0 <= t < self.nodes@.len() && 0 <= k < self.nodes@[t].entries@.len() implies (
                #[trigger] self.nodes@[t].entries@[k]).0.wf(*p) by {
                    if t == at {
                        assert(self.nodes@[t] == gnode);
                    }
                }
            }
        } else {
            let mut entries: Vec<(Individual, Fitness)> = Vec::new();
            entries.push((ind, fit));
            self.nodes.push(Node { coord, entries, hits: 1 });
        }
        self.adds = if self.adds < usize::MAX {
            self.adds + 1
        } else {
            0
        };
        // periodic reorganization: decay hit counters and drop exhausted
        // nodes, so rarely hit regions fade over the configured period
        if self.adds % self.config.rebalance_count == 0 {
            self.rebalance(p);
        }
    }

    /// Halves every hit counter and drops the nodes whose hit share fell
    /// under the reduction factor of the hit memory.
    fn rebalance(&mut self, p: &Problem)
        requires
            old(self).wf(*p),
        ensures
            final(self).wf(*p),
            final(self).elite == old(self).elite,
            final(self).config == old(self).config,
    {
        let mut kept: Vec<Node> = Vec::new();
        while self.nodes.len() > 0
            invariant
                old(self).wf(*p),
                self.elite == old(self).elite,
                self.config == old(self).config,
                forall|t: int|
                    0 <= t < self.nodes@.len() ==> (#[trigger] self.nodes@[t]).entries@.len()
                        <= self.config.max_node_size,
                forall|t: int, k: int|
                    0 <= t < self.nodes@.len() && 0 <= k < self.nodes@[t].entries@.len() ==> (
                    #[trigger] self.nodes@[t].entries@[k]).0.wf(*p),
                forall|t: int|
                    0 <= t < kept@.len() ==> (#[trigger] kept@[t]).entries@.len()
                        <= self.config.max_node_size,
                forall|t: int, k: int|
                    0 <= t < kept@.len() && 0 <= k < kept@[t].entries@.len() ==> (
                    #[trigger] kept@[t].entries@[k]).0.wf(*p),
            decreases self.nodes@.len(),
        {
            let got = self.nodes.pop();
            match got {
                Some(node) => {
                    // a node survives when its hits exceed the reduction
                    // factor's share of the hit memory, and at least one hit
                    let hit_cap: u64 = if self.config.hit_memory > 0 {
                        self.config.hit_memory as u64
                    } else {
                        1u64
                    };
                    proof {
                        assert((self.config.reduction_factor_permille as int) * (hit_cap as int)
                            < 0x1_0000_0000_0000_0000_0000_0000int) by (nonlinear_arith)
                            requires
                                0 <= self.config.reduction_factor_permille
                                    <= 0xFFFF_FFFFu32,
                                0 <= hit_cap <= 0xFFFF_FFFF_FFFF_FFFFu64,
                        ;
                    }
                    let cut: u128 = (self.config.reduction_factor_permille as u128) * (
                    hit_cap as u128) / 1000;
                    let keeps = node.hits > 1 && (node.hits as u128) > cut;
                    if keeps {
                        let halved = Node {
                            coord: node.coord,
                            entries: node.entries,
                            hits: node.hits / 2,
                        };
                        kept.push(halved);
                    }
                },
                None => {},
            }
        }
        self.nodes = kept;
    }

    /// The best candidate held.
    pub fn best(&self) -> (r: &(Individual, Fitness))
        requires
            self.elite.entries@.len() >= 1,
            self.elite.sorted_spec(),
        ensures
            *r == self.elite.entries@[0],
            r.1 == self.best_fitness(),
    {
        self.elite.best()
    }

    /// Picks one parent: with the exploration probability a random node
    /// entry, otherwise from the elite front.
    pub fn select_parent(&self, rng: &mut Rng, p: &Problem) -> (r: Individual)
        requires
            self.wf(*p),
            self.elite.entries@.len() >= 1,
        ensures
            r.wf(*p),
    {
        if rng.permille() < self.config.exploration_ratio_permille && self.nodes.len() > 0 {
            let ni = rng.below(self.nodes.len());
            if self.nodes[ni].entries.len() > 0 {
                let ei = rng.below(self.nodes[ni].entries.len());
                let r = copy_individual(&self.nodes[ni].entries[ei].0);
                proof {
                    assert(r.wf(*p));
                }
                return r;
            }
        }
        let idx = self.elite.select(rng);
        let r = copy_individual(&self.elite.entries[idx].0);
        proof {
            assert(r.wf(*p));
        }
        r
    }
}

/// The admission guarantee, chained over a whole run: in any sequence of
/// best-known fitness values in which every entry is at least as good as
/// its predecessor — exactly what `add` ensures from one admission to the
/// next — the last entry is at least as good as the first.  So across any
/// number of generations the archive's best never worsens, and neither
/// archive ever discards the best-known solution.
pub proof fn lemma_best_never_worsens(h: Seq<Fitness>)
    requires
        h.len() >= 1,
        forall|i: int| 0 <= i < h.len() - 1 ==> h[i + 1].le_spec(#[trigger] h[i]),
    ensures
        h.last().le_spec(h[0]),
    decreases h.len(),
{
    if h.len() == 1 {
    } else {
        assert forall|i: int| 0 <= i < h.drop_last().len() - 1 implies h.drop_last()[i
            + 1].le_spec(#[trigger] h.drop_last()[i]) by {
            assert(h.drop_last()[i] == h[i]);
            assert(h.drop_last()[i + 1] == h[i + 1]);
        }
        lemma_best_never_worsens(h.drop_last());
        assert(h[h.len() - 1].le_spec(h[h.len() - 2])) by {
            assert(h[(h.len() - 2) + 1].le_spec(h[h.len() - 2]));
        }
        assert(h.drop_last().last() == h[h.len() - 2]);
        crate::model::lemma_fitness_le_trans(h.last(), h[h.len() - 2], h[0]);
    }
}

/// The population archive behind the engine: either strategy, one contract.
pub enum Population {
    Elitist(Elitism),
    Adaptive(Rosomaxa),
}

impl Population {
    pub open spec fn wf(self, p: Problem) -> bool {
        match self {
            Population::Elitist(e) => e.wf(p),
            Population::Adaptive(r) => r.wf(p),
        }
    }

    pub open spec fn size(self) -> int {
        match self {
            Population::Elitist(e) => e.entries@.len() as int,
            Population::Adaptive(r) => r.elite.entries@.len() as int,
        }
    }

    pub open spec fn best_fitness(self) -> Fitness {
        match self {
            Population::Elitist(e) => e.best_fitness(),
            Population::Adaptive(r) => r.best_fitness(),
        }
    }

    /// Admission: the best-known fitness never worsens.
    pub fn add(&mut self, ind: Individual, fit: Fitness, p: &Problem)
        requires
            old(self).wf(*p),
            ind.wf(*p),
            fit.unassigned == ind.unassigned@.len(),
            fit.cost == crate::model::total_cost_spec(ind, p.profiles@[0]),
        ensures
            final(self).wf(*p),
            final(self).size() >= 1,
            final(self).best_fitness().le_spec(fit),
            old(self).size() >= 1 ==> final(self).best_fitness().le_spec(old(self).best_fitness()),
    {
        match self {
            Population::Elitist(e) => e.add(ind, fit, p),
            Population::Adaptive(r) => r.add(ind, fit, p),
        }
    }

    /// The best candidate and its fitness.
    pub fn best(&self, p: &Problem) -> (r: (Individual, Fitness))
        requires
            self.wf(*p),
            self.size() >= 1,
        ensures
            r.0.wf(*p),
            r.1 == self.best_fitness(),
            r.0.unassigned@.len() == r.1.unassigned,
            r.1.cost == crate::model::total_cost_spec(r.0, p.profiles@[0]),
    {
        match self {
            Population::Elitist(e) => {
                let b = e.best();
                let ind = copy_individual(&b.0);
                let fit = e.entries[0].1;
                proof {
                    assert(ind.wf(*p));
                    assert(crate::model::total_cost_spec(ind, p.profiles@[0])
                        == crate::model::total_cost_spec(e.entries@[0].0, p.profiles@[0]));
                }
                (ind, fit)
            },
            Population::Adaptive(r) => {
                let b = r.best();
                let ind = copy_individual(&b.0);
                let fit = r.elite.entries[0].1;
                proof {
                    assert(ind.wf(*p));
                    assert(crate::model::total_cost_spec(ind, p.profiles@[0])
                        == crate::model::total_cost_spec(r.elite.entries@[0].0, p.profiles@[0]));
                }
                (ind, fit)
            },
        }
    }

    /// Selects one parent for the next mutation.
    pub fn select(&self, rng: &mut Rng, p: &Problem) -> (r: Individual)
        requires
            self.wf(*p),
            self.size() >= 1,
        ensures
            r.wf(*p),
    {
        match self {
            Population::Elitist(e) => {
                let idx = e.select(rng);
                let r = copy_individual(&e.entries[idx].0);
                proof {
                    assert(r.wf(*p));
                }
                r
            },
            Population::Adaptive(r) => r.select_parent(rng, p),
        }
    }
}

} // verus!
