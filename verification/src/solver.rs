//! The top-level solver: a builder-configured generation loop.
//!
//! The builder collects optional settings with explicit setters over
//! validated defaults; `run` rejects a contradictory configuration before
//! the loop starts, builds an initial population with the configured
//! recreate methods, and then repeats select → mutate → admit until the
//! termination policy is satisfied.  The best candidate and the run
//! statistics come back to the caller.

use vstd::prelude::*;
use std::io::Write;
use crate::model::{Problem, Individual, Fitness, total_cost, lemma_wf_route_jobs, lemma_routes_cost_bound, MAX_JOBS, MAX_ROUTES, MAX_COST};
use crate::rng::Rng;
use crate::select::sum_weights;
use crate::mutation::{RuinAndRecreateMutation, CompositeRuin, CompositeRecreate, RuinGroup, RuinStrategy, RecreateStrategy};
use crate::ruin::RandomJobRemoval;
use crate::recreate::RecreateWithCheapest;
use crate::limit::RemovalLimit;
use crate::population::{Population, Elitism, Rosomaxa, RosomaxaConfig};
use crate::termination::{Termination, should_stop_spec, MAX_TOTAL_COST};

verus! {

/// Generations run if no budget is configured.
pub const DEFAULT_MAX_GENERATIONS: usize = 3000;

/// Default size of the initial population.
pub const DEFAULT_INITIAL_SIZE: usize = 1;

/// Default capacity of the population archive.
pub const DEFAULT_POPULATION_SIZE: usize = 4;

/// Default reserved offspring capacity.
pub const DEFAULT_OFFSPRING_SIZE: usize = 1;

/// Default size of the elite front.
pub const DEFAULT_ELITE_SIZE: usize = 2;

/// Statistics of one finished run.
pub struct RunStats {
    /// Number of generations executed.
    pub generations: usize,
    /// Best-known total cost after each generation.
    pub best_costs: Vec<u64>,
}

/// Per-run mutable state threaded through every generation.
pub struct RefinementContext {
    /// Generation counter.
    pub generation: usize,
    /// Best-known cost history, one entry per generation.
    pub history: Vec<u64>,
    /// The population archive.
    pub population: Population,
    /// The injected random source.
    pub rng: Rng,
}

/// The builder-style configuration of one solver run.
pub struct Builder {
    pub problem: Problem,
    /// Recreate methods used to build the initial population.
    pub initial_methods: Vec<(RecreateStrategy, usize)>,
    /// Size of the initial population.
    pub initial_size: usize,
    /// Capacity of the population archive.
    pub population_size: usize,
    /// Unused capacity reserved for batched offspring.
    pub offspring_size: usize,
    /// Size of the elite front.
    pub elite_size: usize,
    /// Adaptive archive parameters, when the adaptive archive is wanted.
    pub rosomaxa: Option<RosomaxaConfig>,
    /// The mutation applied each generation.
    pub mutation: RuinAndRecreateMutation,
    /// Wall-clock budget in milliseconds.
    pub max_time_ms: Option<u64>,
    /// Generation budget.
    pub max_generations: Option<usize>,
    /// Cost-variation convergence: sample window and bound in thousandths.
    pub variation: Option<(usize, u32)>,
    /// Progress logging toggle; disabled is a no-op sink.
    pub logging_enabled: bool,
}

/// The shape of the default mutation: one ruin group of one
/// full-probability uniform random removal, and cheapest insertion.
pub open spec fn is_default_mutation(r: RuinAndRecreateMutation) -> bool {
    &&& r.recreate.methods@ == seq![
        (RecreateStrategy::Cheapest((RecreateWithCheapest {  })), 1usize),
    ]
    &&& r.ruin.groups@.len() == 1
    &&& r.ruin.groups@[0].weight == 1
    &&& r.ruin.groups@[0].methods@ == seq![
        (
            RuinStrategy::RandomJob(
                (RandomJobRemoval {
                    limit: (RemovalLimit { min: 8, max: 16, threshold_permille: 100 }),
                }),
            ),
            1000u32,
        ),
    ]
}

/// The default mutation: uniform random removal followed by cheapest
/// insertion.
pub fn default_mutation() -> (r: RuinAndRecreateMutation)
    ensures
        r.wf(),
        is_default_mutation(r),
{
    let limit = RemovalLimit::new(8, 16, 100);
    let mut methods: Vec<(RuinStrategy, u32)> = Vec::new();
    methods.push((RuinStrategy::RandomJob(RandomJobRemoval::new(limit)), 1000));
    let mut groups: Vec<RuinGroup> = Vec::new();
    groups.push(RuinGroup { methods, weight: 1 });
    let ruin = CompositeRuin::new(groups);
    let mut recreates: Vec<(RecreateStrategy, usize)> = Vec::new();
    recreates.push((RecreateStrategy::Cheapest(RecreateWithCheapest::new()), 1));
    let recreate = CompositeRecreate::new(recreates);
    proof {
        assert(ruin.groups@.map_values(|g: RuinGroup| g.weight as u64) =~= seq![1u64]);
        assert(sum_weights(seq![1u64]) == 1) by {
            assert(sum_weights(Seq::<u64>::empty()) == 0);
            assert(seq![1u64].drop_first() =~= Seq::<u64>::empty());
            assert(seq![1u64][0] == 1u64);
        }
        assert(recreate.methods@.map_values(|m: (RecreateStrategy, usize)| m.1 as u64)
            =~= seq![1u64]);
        assert(recreate.methods@ =~= seq![
            (RecreateStrategy::Cheapest((RecreateWithCheapest {  })), 1usize),
        ]);
        assert(ruin.groups@[0].methods@ =~= seq![
            (
                RuinStrategy::RandomJob(
                    (RandomJobRemoval {
                        limit: (RemovalLimit { min: 8, max: 16, threshold_permille: 100 }),
                    }),
                ),
                1000u32,
            ),
        ]);
    }
    RuinAndRecreateMutation::new(recreate, ruin)
}

impl Builder {
    /// A configuration over validated defaults: one cheapest-insertion
    /// initial method, a small elitist archive, the default mutation, and
    /// logging enabled.
    pub fn new(problem: Problem) -> (r: Builder)
        ensures
            r.problem == problem,
            r.wf_config(),
            r.initial_methods@ == seq![
                (RecreateStrategy::Cheapest((RecreateWithCheapest {  })), 1usize),
            ],
            r.initial_size == DEFAULT_INITIAL_SIZE,
            r.population_size == DEFAULT_POPULATION_SIZE,
            r.offspring_size == DEFAULT_OFFSPRING_SIZE,
            r.elite_size == DEFAULT_ELITE_SIZE,
            r.rosomaxa is None,
            is_default_mutation(r.mutation),
            r.max_generations is None,
            r.max_time_ms is None,
            r.variation is None,
            r.logging_enabled,
    {
        let mut initial_methods: Vec<(RecreateStrategy, usize)> = Vec::new();
        initial_methods.push((RecreateStrategy::Cheapest(RecreateWithCheapest::new()), 1));
        proof {
            assert(initial_methods@.map_values(|m: (RecreateStrategy, usize)| m.1 as u64)
                =~= seq![1u64]);
            assert(sum_weights(seq![1u64]) == 1) by {
                assert(sum_weights(Seq::<u64>::empty()) == 0);
                assert(seq![1u64].drop_first() =~= Seq::<u64>::empty());
                assert(seq![1u64][0] == 1u64);
            }
        }
        proof {
            assert(initial_methods@ =~= seq![
                (RecreateStrategy::Cheapest((RecreateWithCheapest {  })), 1usize),
            ]);
        }
        Builder {
            problem,
            initial_methods,
            initial_size: DEFAULT_INITIAL_SIZE,
            population_size: DEFAULT_POPULATION_SIZE,
            offspring_size: DEFAULT_OFFSPRING_SIZE,
            elite_size: DEFAULT_ELITE_SIZE,
            rosomaxa: None,
            mutation: default_mutation(),
            max_time_ms: None,
            max_generations: None,
            variation: None,
            logging_enabled: true,
        }
    }

    /// The configuration invariants checked before a run.
    pub open spec fn wf_config(self) -> bool {
        &&& 1 <= self.initial_methods@.len() <= 1024
        &&& forall|i: int|
            0 <= i < self.initial_methods@.len() ==> (#[trigger] self.initial_methods@[i]).0.wf()
        &&& forall|i: int|
            0 <= i < self.initial_methods@.len() ==> (#[trigger] self.initial_methods@[i]).1
                <= 0xFFFF_FFFF
        &&& sum_weights(
            self.initial_methods@.map_values(|m: (RecreateStrategy, usize)| m.1 as u64),
        ) > 0
        &&& self.initial_size >= 1
        &&& self.population_size >= 1
        &&& self.elite_size >= 1
        &&& self.mutation.wf()
        &&& match self.rosomaxa {
            Some(rc) => rc.wf(),
            None => true,
        }
        &&& match self.variation {
            Some((sample, cv)) => 1 <= sample <= crate::termination::MAX_SAMPLE && cv <= 1000,
            None => true,
        }
    }

    pub fn with_initial_methods(self, methods: Vec<(RecreateStrategy, usize)>) -> (r: Builder)
        ensures
            r == (Builder { initial_methods: methods, ..self }),
    {
        Builder { initial_methods: methods, ..self }
    }

    pub fn with_initial_size(self, size: usize) -> (r: Builder)
        ensures
            r == (Builder { initial_size: size, ..self }),
    {
        Builder { initial_size: size, ..self }
    }

    pub fn with_population_size(self, size: usize) -> (r: Builder)
        ensures
            r == (Builder { population_size: size, ..self }),
    {
        Builder { population_size: size, ..self }
    }

    pub fn with_offspring_size(self, size: usize) -> (r: Builder)
        ensures
            r == (Builder { offspring_size: size, ..self }),
    {
        Builder { offspring_size: size, ..self }
    }

    pub fn with_elite_size(self, size: usize) -> (r: Builder)
        ensures
            r == (Builder { elite_size: size, ..self }),
    {
        Builder { elite_size: size, ..self }
    }

    pub fn with_rosomaxa(self, config: Option<RosomaxaConfig>) -> (r: Builder)
        ensures
            r == (Builder { rosomaxa: config, ..self }),
    {
        Builder { rosomaxa: config, ..self }
    }

    pub fn with_mutation(self, mutation: RuinAndRecreateMutation) -> (r: Builder)
        ensures
            r == (Builder { mutation, ..self }),
    {
        Builder { mutation, ..self }
    }

    /// Wall-clock budget in whole seconds, as the configuration gives it.
    pub fn with_max_time(self, max_time_secs: Option<usize>) -> (r: Builder)
        ensures
            r == (Builder {
                max_time_ms: match max_time_secs {
                    Some(t) => Some((((if t <= 0xFFFF_FFFFusize {
                        t
                    } else {
                        0xFFFF_FFFFusize
                    }) as u64) * 1000) as u64),
                    None => None::<u64>,
                },
                ..self
            }),
    {
        let ms = match max_time_secs {
            Some(t) => {
                let capped: usize = if t <= 0xFFFF_FFFFusize {
                    t
                } else {
                    0xFFFF_FFFFusize
                };
                Some((capped as u64) * 1000)
            },
            None => None,
        };
        Builder { max_time_ms: ms, ..self }
    }

    pub fn with_max_generations(self, max_generations: Option<usize>) -> (r: Builder)
        ensures
            r == (Builder { max_generations, ..self }),
    {
        Builder { max_generations, ..self }
    }

    pub fn with_cost_variation(self, variation: Option<(usize, u32)>) -> (r: Builder)
        ensures
            r == (Builder { variation, ..self }),
    {
        Builder { variation, ..self }
    }

    pub fn with_logging(self, enabled: bool) -> (r: Builder)
        ensures
            r == (Builder { logging_enabled: enabled, ..self }),
    {
        Builder { logging_enabled: enabled, ..self }
    }

    /// Runs the evolutionary search.  A contradictory configuration or an
    /// empty problem model is rejected before the loop starts; otherwise
    /// the best candidate found and the run statistics come back.  When a
    /// generation budget is set, no more than that many generations run,
    /// and exactly that many when no other criterion is configured.  When
    /// the fleet can hold every job, the best candidate has no unassigned
    /// work.
    pub fn run(self, rng: Rng) -> (r: Result<(Individual, RunStats), String>)
        requires
            self.problem.wf(),
        ensures
            r is Ok <==> self.wf_config() && self.problem.n_jobs >= 1,
            r matches Ok(out) ==> {
                &&& out.0.wf(self.problem)
                &&& (self.problem.n_jobs <= self.problem.n_routes * self.problem.capacity
                    ==> out.0.unassigned@.len() == 0)
                &&& (match self.max_generations {
                    Some(g) => out.1.generations <= g,
                    None => out.1.generations <= DEFAULT_MAX_GENERATIONS,
                })
                &&& (self.max_time_ms is None && self.variation is None ==> (
                match self.max_generations {
                    Some(g) => out.1.generations == g,
                    None => true,
                }))
                &&& out.1.best_costs@.len() == out.1.generations
                &&& (out.1.generations >= 1 ==> out.1.best_costs@.last()
                    == crate::model::total_cost_spec(out.0, self.problem.profiles@[0]))
                &&& (match self.variation {
                    Some((sample, cv)) => forall|g: int|
                        sample <= g < out.1.generations ==> !crate::termination::cv_within(
                            #[trigger] out.1.best_costs@.take(g).skip(g - sample),
                            cv,
                        ),
                    None => true,
                })
            },
    {
        // reject a bad configuration before any search begins
        if !self.validate() {
            return Err("configuration rejected: empty or contradictory settings".to_string());
        }
        let p = &self.problem;
        let mut rng = rng;
        let termination = Termination {
            max_time_ms: self.max_time_ms,
            max_generations: self.max_generations,
            variation: self.variation,
        };
        // initial population: recreate from empty candidates
        let initial_recreate = CompositeRecreate::new_from(&self.initial_methods);
        let mut population = if let Some(rc) = self.rosomaxa {
            Population::Adaptive(Rosomaxa::new(rc, p))
        } else {
            Population::Elitist(Elitism::new(self.population_size, p))
        };
        let mut k: usize = 0;
        while k < self.initial_size
            invariant
                k <= self.initial_size,
                p == &self.problem,
                p.wf(),
                self.wf_config(),
                population.wf(*p),
                k >= 1 ==> population.size() >= 1,
                initial_recreate.wf(),
                p.n_jobs <= p.n_routes * p.capacity && population.size() >= 1
                    ==> population.best_fitness().unassigned == 0,
            decreases self.initial_size - k,
        {
            let mut ind = Individual::empty(p);
            initial_recreate.run(&mut rng, p, &mut ind);
            let fit = evaluate(p, &ind);
            population.add(ind, fit, p);
            k += 1;
        }
        let start_ms = now_millis();
        let cap = match self.max_generations {
            Some(g) => g,
            None => DEFAULT_MAX_GENERATIONS,
        };
        let mut gens: usize = 0;
        let mut history: Vec<u64> = Vec::new();
        let mut done = false;
        while !done && gens < cap
            invariant
                gens <= cap,
                p == &self.problem,
                p.wf(),
                self.wf_config(),
                population.wf(*p),
                population.size() >= 1,
                p.n_jobs <= p.n_routes * p.capacity ==> population.best_fitness().unassigned == 0,
                self.max_generations == Some(cap) || (self.max_generations is None && cap
                    == DEFAULT_MAX_GENERATIONS),
                forall|i: int| 0 <= i < history@.len() ==> (#[trigger] history@[i]) <= MAX_TOTAL_COST,
                history@.len() == gens,
                gens >= 1 ==> history@.last() == population.best_fitness().cost,
                termination.max_time_ms == self.max_time_ms,
                termination.max_generations == self.max_generations,
                termination.variation == self.variation,
                termination.wf(),
                self.max_time_ms is None && self.variation is None && done ==> (
                match self.max_generations {
                    Some(g) => gens >= g,
                    None => false,
                }),
                match self.variation {
                    Some((sample, cv)) => forall|g: int|
                        sample <= g < gens ==> !crate::termination::cv_within(
                            #[trigger] history@.take(g).skip(g - sample),
                            cv,
                        ),
                    None => true,
                },
                match self.variation {
                    Some((sample, cv)) => !done && gens >= sample
                        ==> !crate::termination::cv_within(
                        history@.take(gens as int).skip(gens - sample),
                        cv,
                    ),
                    None => true,
                },
            decreases cap - gens,
        {
            // one generation: select, mutate, admit
            let mut cand = population.select(&mut rng, p);
            self.mutation.mutate(&mut rng, p, &mut cand);
            let fit = evaluate(p, &cand);
            population.add(cand, fit, p);
            gens += 1;
            let best = population.best(p);
            proof {
                lemma_wf_route_jobs(best.0, *p);
                lemma_routes_cost_bound(best.0.routes_seq(), p.profiles@[0], p.n_jobs as int);
                assert((MAX_ROUTES as int) * (MAX_JOBS as int) * (MAX_COST as int)
                    <= MAX_TOTAL_COST) by (nonlinear_arith);
                assert(best.0.routes_seq().len() * (MAX_JOBS as int) * (MAX_COST as int) <= (
                MAX_ROUTES as int) * (MAX_JOBS as int) * (MAX_COST as int)) by (nonlinear_arith)
                    requires
                        0 <= best.0.routes_seq().len() <= MAX_ROUTES,
                ;
            }
            let ghost pre_hist = history@;
            let best_cost = total_cost(&best.0, p);
            history.push(best_cost);
            if self.logging_enabled {
                log_progress(gens, best_cost, best.1.unassigned);
            }
            let elapsed = elapsed_since(start_ms);
            done = termination.should_stop(gens, elapsed, &history);
            proof {
                assert forall|g: int| 0 <= g <= pre_hist.len() implies #[trigger] history@.take(g)
                    =~= pre_hist.take(g) by {}
                assert(history@.take(gens as int) =~= history@);
            }
        }
        let best = population.best(p);
        proof {
            if p.n_jobs <= p.n_routes * p.capacity {
                assert(best.0.unassigned@.len() == best.1.unassigned);
                assert(best.1.unassigned == population.best_fitness().unassigned);
            }
            if gens >= 1 {
                assert(history@.last() == best.1.cost);
                assert(best.1.cost == crate::model::total_cost_spec(best.0, p.profiles@[0]));
            }
        }
        Ok((best.0, RunStats { generations: gens, best_costs: history }))
    }

    /// Checks the configuration invariants.
    fn validate(&self) -> (r: bool)
        ensures
            r == (self.wf_config() && self.problem.n_jobs >= 1),
    {
        if self.problem.n_jobs == 0 {
            return false;
        }
        if self.initial_size == 0 || self.population_size == 0 || self.elite_size == 0 {
            return false;
        }
        if !check_recreate_list(&self.initial_methods) {
            return false;
        }
        if !check_mutation(&self.mutation) {
            return false;
        }
        match self.rosomaxa {
            Some(rc) => {
                if !(rc.selection_size >= 1 && rc.max_elite_size >= 1 && rc.max_node_size >= 1
                    && rc.rebalance_count >= 1) {
                    return false;
                }
            },
            None => {},
        }
        match self.variation {
            Some((sample, cv)) => {
                if !(1 <= sample && sample <= crate::termination::MAX_SAMPLE && cv <= 1000) {
                    return false;
                }
            },
            None => {},
        }
        true
    }
}

/// The fitness of a candidate: unassigned count first, then total cost.
pub fn evaluate(p: &Problem, ind: &Individual) -> (r: Fitness)
    requires
        p.wf(),
        ind.wf(*p),
    ensures
        r.unassigned == ind.unassigned@.len(),
        r.cost == crate::model::total_cost_spec(*ind, p.profiles@[0]),
{
    let cost = total_cost(ind, p);
    Fitness { unassigned: ind.unassigned.len(), cost }
}

impl CompositeRecreate {
    /// A composite over a copied method list.
    fn new_from(methods: &Vec<(RecreateStrategy, usize)>) -> (r: CompositeRecreate)
        requires
            1 <= methods@.len() <= 1024,
            forall|i: int| 0 <= i < methods@.len() ==> (#[trigger] methods@[i]).0.wf(),
            forall|i: int| 0 <= i < methods@.len() ==> (#[trigger] methods@[i]).1 <= 0xFFFF_FFFF,
            sum_weights(methods@.map_values(|m: (RecreateStrategy, usize)| m.1 as u64)) > 0,
        ensures
            r.wf(),
    {
        let mut out: Vec<(RecreateStrategy, usize)> = Vec::new();
        let mut i: usize = 0;
        while i < methods.len()
            invariant
                i <= methods@.len(),
                out@ =~= methods@.take(i as int),
            decreases methods@.len() - i,
        {
            out.push(methods[i]);
            proof {
                assert(out@ =~= methods@.take(i + 1));
            }
            i += 1;
        }
        proof {
            assert(out@ =~= methods@);
        }
        let r = CompositeRecreate::new(out);
        proof {
            assert(r.methods@.map_values(|m: (RecreateStrategy, usize)| m.1 as u64)
                =~= methods@.map_values(|m: (RecreateStrategy, usize)| m.1 as u64));
        }
        r
    }
}

/// Relies on `std::time::SystemTime::now` and `duration_since`: the current
/// time in milliseconds since the epoch.  Nothing can be promised of the
/// clock.
#[verifier::external_body]
fn now_millis() -> u64 {
    match std::time::SystemTime::now().duration_since(std::time::UNIX_EPOCH) {
        Ok(d) => d.as_millis() as u64,
        Err(_) => 0,
    }
}

/// Milliseconds elapsed since `start_ms`, zero if the clock went backwards.
fn elapsed_since(start_ms: u64) -> (r: u64) {
    let now = now_millis();
    if now >= start_ms {
        now - start_ms
    } else {
        0
    }
}

/// Relies on `std::io::Stdout` through `writeln`: emits one progress line
/// per generation when logging is enabled.
#[verifier::external_body]
fn log_progress(generation: usize, best_cost: u64, unassigned: usize) {
    let _ = writeln!(
        std::io::stdout(),
        "generation {}: best cost {}, unassigned {}",
        generation,
        best_cost,
        unassigned,
    );
}

/// Checks a recreate method list against the composite invariants.
fn check_recreate_list(methods: &Vec<(RecreateStrategy, usize)>) -> (r: bool)
    ensures
        r == (1 <= methods@.len() <= 1024 && (forall|i: int|
            0 <= i < methods@.len() ==> (#[trigger] methods@[i]).0.wf()) && (forall|i: int|
            0 <= i < methods@.len() ==> (#[trigger] methods@[i]).1 <= 0xFFFF_FFFF) && sum_weights(
            methods@.map_values(|m: (RecreateStrategy, usize)| m.1 as u64),
        ) > 0),
{
    if methods.len() == 0 || methods.len() > 1024 {
        return false;
    }
    let ghost wspec = methods@.map_values(|m: (RecreateStrategy, usize)| m.1 as u64);
    let mut ok = true;
    let mut some_weight = false;
    let mut i: usize = 0;
    while i < methods.len()
        invariant
            i <= methods@.len(),
            ok == ((forall|t: int| 0 <= t < i ==> (#[trigger] methods@[t]).0.wf()) && (forall|
                t: int,
            | 0 <= t < i ==> (#[trigger] methods@[t]).1 <= 0xFFFF_FFFF)),
            some_weight == (sum_weights(wspec.take(i as int)) > 0),
            wspec == methods@.map_values(|m: (RecreateStrategy, usize)| m.1 as u64),
        decreases methods@.len() - i,
    {
        proof {
            crate::select::lemma_sum_weights_take(wspec, i as int);
            crate::select::lemma_sum_weights_prefix(wspec, i as int);
        }
        let m = &methods[i];
        let mwf = match &m.0 {
            RecreateStrategy::Regret(s) => 1 <= s.start && s.start <= s.end,
            _ => true,
        };
        if !mwf || m.1 > 0xFFFF_FFFF {
            ok = false;
        }
        if m.1 > 0 {
            some_weight = true;
        }
        i += 1;
    }
    proof {
        assert(wspec.take(methods@.len() as int) =~= wspec);
    }
    ok && some_weight
}

/// Checks a mutation against the composite invariants.
fn check_mutation(m: &RuinAndRecreateMutation) -> (r: bool)
    ensures
        r == m.wf(),
{
    check_recreate_list(&m.recreate.methods) && check_ruin_groups(&m.ruin.groups)
}

/// Checks the ruin groups against the composite invariants.
fn check_ruin_groups(groups: &Vec<RuinGroup>) -> (r: bool)
    ensures
        r == (1 <= groups@.len() <= 1024 && (forall|i: int|
            0 <= i < groups@.len() ==> (#[trigger] groups@[i]).wf()) && sum_weights(
            groups@.map_values(|g: RuinGroup| g.weight as u64),
        ) > 0),
{
    if groups.len() == 0 || groups.len() > 1024 {
        return false;
    }
    let ghost wspec = groups@.map_values(|g: RuinGroup| g.weight as u64);
    let mut ok = true;
    let mut some_weight = false;
    let mut i: usize = 0;
    while i < groups.len()
        invariant
            i <= groups@.len(),
            ok == (forall|t: int| 0 <= t < i ==> (#[trigger] groups@[t]).wf()),
            some_weight == (sum_weights(wspec.take(i as int)) > 0),
            wspec == groups@.map_values(|g: RuinGroup| g.weight as u64),
        decreases groups@.len() - i,
    {
        proof {
            crate::select::lemma_sum_weights_take(wspec, i as int);
            crate::select::lemma_sum_weights_prefix(wspec, i as int);
        }
        let g = &groups[i];
        if !check_ruin_group(g) {
            ok = false;
        }
        if g.weight > 0 {
            some_weight = true;
        }
        i += 1;
    }
    proof {
        assert(wspec.take(groups@.len() as int) =~= wspec);
    }
    ok && some_weight
}

/// Checks one ruin group.
fn check_ruin_group(g: &RuinGroup) -> (r: bool)
    ensures
        r == g.wf(),
{
    if g.methods.len() == 0 || g.weight > 0xFFFF_FFFF {
        return false;
    }
    let mut ok = true;
    let mut i: usize = 0;
    while i < g.methods.len()
        invariant
            i <= g.methods@.len(),
            ok == (forall|t: int| 0 <= t < i ==> (#[trigger] g.methods@[t]).0.wf()),
        decreases g.methods@.len() - i,
    {
        let swf = match &g.methods[i].0 {
            RuinStrategy::AdjustedString(_) => true,
            RuinStrategy::Neighbour(s) => s.limit.min <= s.limit.max && s.limit.threshold_permille
                <= 1000,
            RuinStrategy::RandomJob(s) => s.limit.min <= s.limit.max && s.limit.threshold_permille
                <= 1000,
            RuinStrategy::RandomRoute(s) => s.limit.min <= s.limit.max
                && s.limit.threshold_permille <= 1000,
            RuinStrategy::WorstJob(s) => s.limit.min <= s.limit.max && s.limit.threshold_permille
                <= 1000,
            RuinStrategy::Cluster(s) => check_cluster(s),
        };
        if !swf {
            ok = false;
        }
        i += 1;
    }
    ok
}

/// Checks the cluster-removal parameters.
fn check_cluster(s: &crate::cluster::ClusterRemoval) -> (r: bool)
    ensures
        r == s.wf(),
{
    if s.params.len() == 0 {
        return false;
    }
    if !(s.limit.min <= s.limit.max && s.limit.threshold_permille <= 1000) {
        return false;
    }
    let mut ok = true;
    let mut i: usize = 0;
    while i < s.params.len()
        invariant
            i <= s.params@.len(),
            ok == (forall|t: int| 0 <= t < i ==> (#[trigger] s.params@[t]).1 <= crate::model::MAX_COST),
        decreases s.params@.len() - i,
    {
        if s.params[i].1 > crate::model::MAX_COST {
            ok = false;
        }
        i += 1;
    }
    ok
}

} // verus!
