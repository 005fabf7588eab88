//! The declarative configuration surface and its mapping onto a builder.
//!
//! A configuration document selects initial-population methods and sizes,
//! mutation variants with weights, termination thresholds and a logging
//! toggle; unset values fall back to the builder defaults.  The JSON form
//! of the document is parsed through `serde_json` behind trusted wrappers;
//! fractional parameters are given in thousandths (`*_permille` keys), and
//! everything after parsing — validation and builder assembly — is
//! verified.

use vstd::prelude::*;
use vstd::string::StrSliceExecFns;
use crate::model::Problem;
use crate::limit::RemovalLimit;
use crate::mutation::{RuinStrategy, RecreateStrategy, RuinGroup, CompositeRuin, CompositeRecreate, RuinAndRecreateMutation};
use crate::ruin::{AdjustedStringRemoval, NeighbourRemoval, RandomJobRemoval, RandomRouteRemoval, WorstJobRemoval};
use crate::cluster::ClusterRemoval;
use crate::recreate::{RecreateWithCheapest, RecreateWithRegret, RecreateWithBlinks, RecreateWithGaps, RecreateWithNearestNeighbor};
use crate::solver::Builder;

verus! {

/// The whole configuration document.
pub struct Config {
    pub population: Option<PopulationConfig>,
    pub mutation: Option<MutationConfig>,
    pub termination: Option<TerminationConfig>,
    pub logging: Option<LoggingConfig>,
}

/// The mutation section: ruin groups plus recreate methods.
pub enum MutationConfig {
    RuinRecreate { ruins: Vec<ConfigRuinGroup>, recreates: Vec<RecreateMethod> },
}

/// One ruin group: its methods and its selection weight.
pub struct ConfigRuinGroup {
    pub methods: Vec<RuinMethod>,
    pub weight: usize,
}

/// A ruin method with its application probability (in thousandths) and its
/// specific parameters.
pub enum RuinMethod {
    AdjustedString { probability_permille: u32, lmax: usize, cavg: usize, alpha_permille: u32 },
    Neighbour { probability_permille: u32, min: usize, max: usize, threshold_permille: u32 },
    RandomJob { probability_permille: u32, min: usize, max: usize, threshold_permille: u32 },
    RandomRoute { probability_permille: u32, min: usize, max: usize, threshold_permille: u32 },
    WorstJob {
        probability_permille: u32,
        min: usize,
        max: usize,
        threshold_permille: u32,
        skip: usize,
    },
    Cluster {
        probability_permille: u32,
        min: usize,
        max: usize,
        threshold_permille: u32,
        cmin: usize,
        cmax: usize,
    },
}

/// A recreate method with its selection weight and specific parameters.
#[derive(Clone, Copy)]
pub enum RecreateMethod {
    Cheapest { weight: usize },
    Regret { weight: usize, start: usize, end: usize },
    Blinks { weight: usize },
    Gaps { weight: usize, min: usize },
    Nearest { weight: usize },
}

/// The initial-population section.
pub struct PopulationConfig {
    pub initial_methods: Option<Vec<RecreateMethod>>,
    pub initial_size: Option<usize>,
    pub population_size: Option<usize>,
    pub offspring_size: Option<usize>,
    pub elite_size: Option<usize>,
}

/// The termination section.
pub struct TerminationConfig {
    pub max_time: Option<usize>,
    pub max_generations: Option<usize>,
    pub variation: Option<VariationConfig>,
}

/// Cost-variation convergence: window length and bound in thousandths.
pub struct VariationConfig {
    pub sample: usize,
    pub cv_permille: u32,
}

/// The logging toggle; enabled by default.
pub struct LoggingConfig {
    pub enabled: bool,
}

/// A ruin method is rejected exactly when its removal limit is
/// self-contradictory or a cluster size bound exceeds the job-count limit.
pub open spec fn ruin_method_rejected(m: RuinMethod) -> bool {
    match m {
        RuinMethod::AdjustedString { .. } => false,
        RuinMethod::Neighbour { min, max, threshold_permille, .. } => min > max
            || threshold_permille > 1000,
        RuinMethod::RandomJob { min, max, threshold_permille, .. } => min > max
            || threshold_permille > 1000,
        RuinMethod::RandomRoute { min, max, threshold_permille, .. } => min > max
            || threshold_permille > 1000,
        RuinMethod::WorstJob { min, max, threshold_permille, .. } => min > max
            || threshold_permille > 1000,
        RuinMethod::Cluster { min, max, threshold_permille, cmin, .. } => min > max
            || threshold_permille > 1000 || cmin > crate::model::MAX_JOBS,
    }
}

/// What an accepted ruin method maps to: the variant-matched strategy with
/// its parameters, paired with its application probability.
pub open spec fn ruin_matches(r: (RuinStrategy, u32), p: Problem, m: RuinMethod) -> bool {
    match m {
        RuinMethod::AdjustedString { probability_permille, lmax, cavg, alpha_permille } => r == (
            RuinStrategy::AdjustedString(
                (AdjustedStringRemoval { lmax, cavg, alpha_permille }),
            ),
            probability_permille,
        ),
        RuinMethod::Neighbour { probability_permille, min, max, threshold_permille } => r == (
            RuinStrategy::Neighbour(
                (NeighbourRemoval { limit: (RemovalLimit { min, max, threshold_permille }) }),
            ),
            probability_permille,
        ),
        RuinMethod::RandomJob { probability_permille, min, max, threshold_permille } => r == (
            RuinStrategy::RandomJob(
                (RandomJobRemoval { limit: (RemovalLimit { min, max, threshold_permille }) }),
            ),
            probability_permille,
        ),
        RuinMethod::RandomRoute { probability_permille, min, max, threshold_permille } => r == (
            RuinStrategy::RandomRoute(
                (RandomRouteRemoval { limit: (RemovalLimit { min, max, threshold_permille }) }),
            ),
            probability_permille,
        ),
        RuinMethod::WorstJob { probability_permille, min, max, threshold_permille, skip } => r == (
            RuinStrategy::WorstJob(
                (WorstJobRemoval {
                    skip,
                    limit: (RemovalLimit { min, max, threshold_permille }),
                }),
            ),
            probability_permille,
        ),
        RuinMethod::Cluster { probability_permille, min, max, threshold_permille, cmin, cmax } => {
            &&& r.1 == probability_permille
            &&& match r.0 {
                RuinStrategy::Cluster(c) => c.limit == (RemovalLimit {
                    min,
                    max,
                    threshold_permille,
                }) && c.params@ == crate::cluster::cluster_params_spec(p, cmin as int, cmax as int),
                _ => false,
            }
        },
    }
}

/// A ruin group is rejected exactly when it has no method or one of its
/// methods is rejected.
pub open spec fn ruin_group_rejected(g: ConfigRuinGroup) -> bool {
    ||| g.methods@.len() == 0
    ||| exists|i: int| 0 <= i < g.methods@.len() && ruin_method_rejected(#[trigger] g.methods@[i])
}

/// What an accepted ruin group maps to: its weight and its methods, each
/// the mapping of the method at the same place.
pub open spec fn group_matches(g: RuinGroup, p: Problem, cg: ConfigRuinGroup) -> bool {
    &&& g.weight == cg.weight
    &&& g.methods@.len() == cg.methods@.len()
    &&& forall|i: int|
        0 <= i < cg.methods@.len() ==> ruin_matches(#[trigger] g.methods@[i], p, cg.methods@[i])
}

/// What one recreate method maps to: the strategy and its weight.
pub open spec fn spec_create_recreate(m: RecreateMethod) -> (RecreateStrategy, usize) {
    match m {
        RecreateMethod::Cheapest { weight } => (
            RecreateStrategy::Cheapest(RecreateWithCheapest {  }),
            weight,
        ),
        RecreateMethod::Regret { weight, start, end } => (
            RecreateStrategy::Regret(RecreateWithRegret { start, end }),
            weight,
        ),
        RecreateMethod::Blinks { weight } => (
            RecreateStrategy::Blinks(RecreateWithBlinks { blink_permille: 10 }),
            weight,
        ),
        RecreateMethod::Gaps { weight, min } => (
            RecreateStrategy::Gaps(RecreateWithGaps { min_gap: min }),
            weight,
        ),
        RecreateMethod::Nearest { weight } => (
            RecreateStrategy::Nearest(RecreateWithNearestNeighbor {  }),
            weight,
        ),
    }
}

/// Creates one recreate strategy from its configuration value.
pub fn create_recreate_method(method: &RecreateMethod) -> (r: (RecreateStrategy, usize))
    ensures
        r == spec_create_recreate(*method),
{
    match method {
        RecreateMethod::Cheapest { weight } => (
            RecreateStrategy::Cheapest(RecreateWithCheapest {  }),
            *weight,
        ),
        RecreateMethod::Regret { weight, start, end } => (
            RecreateStrategy::Regret(RecreateWithRegret { start: *start, end: *end }),
            *weight,
        ),
        RecreateMethod::Blinks { weight } => (
            RecreateStrategy::Blinks(RecreateWithBlinks { blink_permille: 10 }),
            *weight,
        ),
        RecreateMethod::Gaps { weight, min } => (
            RecreateStrategy::Gaps(RecreateWithGaps { min_gap: *min }),
            *weight,
        ),
        RecreateMethod::Nearest { weight } => (
            RecreateStrategy::Nearest(RecreateWithNearestNeighbor {  }),
            *weight,
        ),
    }
}

/// Creates one ruin strategy from its configuration value: exactly the
/// variant-matched strategy with its parameters and probability.  Returns
/// an error exactly when a removal limit is self-contradictory (`min > max`
/// or a fraction above one) or a cluster size bound exceeds the job-count
/// limit.
pub fn create_ruin_method(problem: &Problem, method: &RuinMethod) -> (r: Result<
    (RuinStrategy, u32),
    String,
>)
    requires
        problem.wf(),
    ensures
        r is Err <==> ruin_method_rejected(*method),
        r matches Ok(s) ==> ruin_matches(s, *problem, *method) && s.0.wf(),
{
    match method {
        RuinMethod::AdjustedString { probability_permille, lmax, cavg, alpha_permille } => {
            Ok(
                (
                    RuinStrategy::AdjustedString(
                        AdjustedStringRemoval {
                            lmax: *lmax,
                            cavg: *cavg,
                            alpha_permille: *alpha_permille,
                        },
                    ),
                    *probability_permille,
                ),
            )
        },
        RuinMethod::Neighbour { probability_permille, min, max, threshold_permille } => {
            if *min > *max || *threshold_permille > 1000 {
                return Err("neighbour removal limit is contradictory".to_string());
            }
            Ok(
                (
                    RuinStrategy::Neighbour(
                        NeighbourRemoval::new(RemovalLimit::new(*min, *max, *threshold_permille)),
                    ),
                    *probability_permille,
                ),
            )
        },
        RuinMethod::RandomJob { probability_permille, min, max, threshold_permille } => {
            if *min > *max || *threshold_permille > 1000 {
                return Err("random-job removal limit is contradictory".to_string());
            }
            Ok(
                (
                    RuinStrategy::RandomJob(
                        RandomJobRemoval::new(RemovalLimit::new(*min, *max, *threshold_permille)),
                    ),
                    *probability_permille,
                ),
            )
        },
        RuinMethod::RandomRoute { probability_permille, min, max, threshold_permille } => {
            if *min > *max || *threshold_permille > 1000 {
                return Err("random-route removal limit is contradictory".to_string());
            }
            Ok(
                (
                    RuinStrategy::RandomRoute(
                        RandomRouteRemoval::new(*min, *max, *threshold_permille),
                    ),
                    *probability_permille,
                ),
            )
        },
        RuinMethod::WorstJob { probability_permille, min, max, threshold_permille, skip } => {
            if *min > *max || *threshold_permille > 1000 {
                return Err("worst-job removal limit is contradictory".to_string());
            }
            Ok(
                (
                    RuinStrategy::WorstJob(
                        WorstJobRemoval::new(
                            *skip,
                            RemovalLimit::new(*min, *max, *threshold_permille),
                        ),
                    ),
                    *probability_permille,
                ),
            )
        },
        RuinMethod::Cluster { probability_permille, min, max, threshold_permille, cmin, cmax } => {
            if *min > *max || *threshold_permille > 1000 || *cmin > crate::model::MAX_JOBS {
                return Err("cluster removal parameters are contradictory".to_string());
            }
            let limit = RemovalLimit::new(*min, *max, *threshold_permille);
            Ok(
                (
                    RuinStrategy::Cluster(ClusterRemoval::new(problem, *cmin, *cmax, limit)),
                    *probability_permille,
                ),
            )
        },
    }
}

/// Creates one ruin group: its weight and, in order, the mapping of each
/// of its methods.  Returns an error exactly when the group has no method
/// or one of its methods is rejected.
pub fn create_ruin_group(problem: &Problem, group: &ConfigRuinGroup) -> (r: Result<
    RuinGroup,
    String,
>)
    requires
        problem.wf(),
    ensures
        r is Err <==> ruin_group_rejected(*group),
        r matches Ok(g) ==> group_matches(g, *problem, *group) && forall|i: int|
            0 <= i < g.methods@.len() ==> (#[trigger] g.methods@[i]).0.wf(),
{
    if group.methods.len() == 0 {
        return Err("a ruin group must name at least one method".to_string());
    }
    let mut methods: Vec<(RuinStrategy, u32)> = Vec::new();
    let mut i: usize = 0;
    while i < group.methods.len()
        invariant
            i <= group.methods@.len(),
            problem.wf(),
            methods@.len() == i,
            forall|t: int| 0 <= t < methods@.len() ==> (#[trigger] methods@[t]).0.wf(),
            forall|t: int| 0 <= t < i ==> !ruin_method_rejected(#[trigger] group.methods@[t]),
            forall|t: int|
                0 <= t < i ==> ruin_matches(#[trigger] methods@[t], *problem, group.methods@[t]),
        decreases group.methods@.len() - i,
    {
        let m = create_ruin_method(problem, &group.methods[i]);
        match m {
            Ok(pair) => {
                methods.push(pair);
            },
            Err(e) => {
                proof {
                    assert(ruin_method_rejected(group.methods@[i as int]));
                }
                return Err(e);
            },
        }
        i += 1;
    }
    Ok(RuinGroup { methods, weight: group.weight })
}

/// Applies the population section to a builder.
pub fn configure_from_population(builder: Builder, population_config: &Option<PopulationConfig>)
    -> (r: Builder)
    ensures
        r.problem == builder.problem,
        r.mutation == builder.mutation,
        r.rosomaxa == builder.rosomaxa,
        r.max_time_ms == builder.max_time_ms,
        r.max_generations == builder.max_generations,
        r.variation == builder.variation,
        r.logging_enabled == builder.logging_enabled,
        match *population_config {
            Some(cfg) => {
                &&& (match cfg.initial_size {
                    Some(v) => r.initial_size == v,
                    None => r.initial_size == builder.initial_size,
                })
                &&& (match cfg.population_size {
                    Some(v) => r.population_size == v,
                    None => r.population_size == builder.population_size,
                })
                &&& (match cfg.elite_size {
                    Some(v) => r.elite_size == v,
                    None => r.elite_size == builder.elite_size,
                })
                &&& (match cfg.offspring_size {
                    Some(v) => r.offspring_size == v,
                    None => r.offspring_size == builder.offspring_size,
                })
                &&& (match cfg.initial_methods {
                    Some(ms) => r.initial_methods@ == ms@.map_values(
                        |m: RecreateMethod| spec_create_recreate(m),
                    ),
                    None => r.initial_methods == builder.initial_methods,
                })
            },
            None => r == builder,
        },
{
    let mut builder = builder;
    match population_config {
        Some(cfg) => {
            match &cfg.initial_methods {
                Some(ms) => {
                    let ghost mapped = ms@.map_values(|m: RecreateMethod| spec_create_recreate(m));
                    let mut methods: Vec<(RecreateStrategy, usize)> = Vec::new();
                    let mut i: usize = 0;
                    while i < ms.len()
                        invariant
                            i <= ms@.len(),
                            mapped == ms@.map_values(|m: RecreateMethod| spec_create_recreate(m)),
                            methods@ =~= mapped.take(i as int),
                        decreases ms@.len() - i,
                    {
                        let pair = create_recreate_method(&ms[i]);
                        methods.push(pair);
                        proof {
                            assert(methods@ =~= mapped.take(i + 1));
                        }
                        i += 1;
                    }
                    proof {
                        assert(methods@ =~= mapped);
                    }
                    builder = builder.with_initial_methods(methods);
                },
                None => {},
            }
            match cfg.initial_size {
                Some(v) => {
                    builder = builder.with_initial_size(v);
                },
                None => {},
            }
            match cfg.population_size {
                Some(v) => {
                    builder = builder.with_population_size(v);
                },
                None => {},
            }
            match cfg.elite_size {
                Some(v) => {
                    builder = builder.with_elite_size(v);
                },
                None => {},
            }
            match cfg.offspring_size {
                Some(v) => {
                    builder = builder.with_offspring_size(v);
                },
                None => {},
            }
            builder
        },
        None => builder,
    }
}

/// A mutation section is rejected exactly when a list is empty or one of
/// its ruin groups is rejected.
pub open spec fn mutation_config_rejected(c: MutationConfig) -> bool {
    match c {
        MutationConfig::RuinRecreate { ruins, recreates } => {
            ||| ruins@.len() == 0
            ||| recreates@.len() == 0
            ||| exists|i: int| 0 <= i < ruins@.len() && ruin_group_rejected(#[trigger] ruins@[i])
        },
    }
}

/// What an accepted mutation section maps to: the composite over the
/// mapped recreate list and the mapped ruin groups, in order.
pub open spec fn mutation_matches(mu: RuinAndRecreateMutation, p: Problem, c: MutationConfig) -> bool {
    match c {
        MutationConfig::RuinRecreate { ruins, recreates } => {
            &&& mu.recreate.methods@ == recreates@.map_values(
                |m: RecreateMethod| spec_create_recreate(m),
            )
            &&& mu.ruin.groups@.len() == ruins@.len()
            &&& forall|j: int|
                0 <= j < ruins@.len() ==> group_matches(#[trigger] mu.ruin.groups@[j], p, ruins@[j])
        },
    }
}

/// Applies the mutation section to a builder: the installed mutation is
/// the composite of the mapped lists, every other setting is kept, and an
/// absent section changes nothing.  Returns an error exactly when a list
/// is empty or a ruin group or method is rejected.
pub fn configure_from_mutation(builder: Builder, mutation_config: &Option<MutationConfig>) -> (r:
    Result<Builder, String>)
    requires
        builder.problem.wf(),
    ensures
        r is Err <==> (match *mutation_config {
            Some(c) => mutation_config_rejected(c),
            None => false,
        }),
        r matches Ok(b) ==> b.problem == builder.problem && b.max_time_ms == builder.max_time_ms
            && b.max_generations == builder.max_generations && b.variation == builder.variation
            && b.logging_enabled == builder.logging_enabled && b.initial_methods
            == builder.initial_methods && b.initial_size == builder.initial_size
            && b.population_size == builder.population_size && b.offspring_size
            == builder.offspring_size && b.elite_size == builder.elite_size && b.rosomaxa
            == builder.rosomaxa,
        r matches Ok(b) ==> (match *mutation_config {
            Some(c) => mutation_matches(b.mutation, builder.problem, c),
            None => b.mutation == builder.mutation,
        }),
{
    match mutation_config {
        Some(cfg) => {
            proof {
                assert(!(*mutation_config is None));
            }
            let MutationConfig::RuinRecreate { ruins, recreates } = cfg;
            if ruins.len() == 0 {
                return Err("the mutation section names no ruin group".to_string());
            }
            if recreates.len() == 0 {
                return Err("the mutation section names no recreate method".to_string());
            }
            let mut groups: Vec<RuinGroup> = Vec::new();
            let mut i: usize = 0;
            while i < ruins.len()
                invariant
                    i <= ruins@.len(),
                    builder.problem.wf(),
                    !(*mutation_config is None),
                    *mutation_config matches Some(c) && c == (MutationConfig::RuinRecreate {
                        ruins: *ruins,
                        recreates: *recreates,
                    }),
                    groups@.len() == i,
                    forall|t: int| 0 <= t < i ==> !ruin_group_rejected(#[trigger] ruins@[t]),
                    forall|t: int|
                        0 <= t < i ==> group_matches(
                            #[trigger] groups@[t],
                            builder.problem,
                            ruins@[t],
                        ),
                decreases ruins@.len() - i,
            {
                let g = create_ruin_group(&builder.problem, &ruins[i]);
                match g {
                    Ok(g) => {
                        groups.push(g);
                    },
                    Err(e) => {
                        proof {
                            assert(ruin_group_rejected(ruins@[i as int]));
                        }
                        return Err(e);
                    },
                }
                i += 1;
            }
            let ghost mapped = recreates@.map_values(|m: RecreateMethod| spec_create_recreate(m));
            let mut methods: Vec<(RecreateStrategy, usize)> = Vec::new();
            let mut k: usize = 0;
            while k < recreates.len()
                invariant
                    k <= recreates@.len(),
                    mapped == recreates@.map_values(|m: RecreateMethod| spec_create_recreate(m)),
                    methods@ =~= mapped.take(k as int),
                decreases recreates@.len() - k,
            {
                let pair = create_recreate_method(&recreates[k]);
                methods.push(pair);
                proof {
                    assert(methods@ =~= mapped.take(k + 1));
                }
                k += 1;
            }
            proof {
                assert(methods@ =~= mapped);
            }
            let mutation = RuinAndRecreateMutation::new(
                CompositeRecreate::new(methods),
                CompositeRuin::new(groups),
            );
            Ok(builder.with_mutation(mutation))
        },
        None => Ok(builder),
    }
}

/// Applies the termination section to a builder.
pub fn configure_from_termination(builder: Builder, termination_config: &Option<TerminationConfig>)
    -> (r: Builder)
    ensures
        r.problem == builder.problem,
        r.mutation == builder.mutation,
        r.initial_methods == builder.initial_methods,
        r.initial_size == builder.initial_size,
        r.population_size == builder.population_size,
        r.offspring_size == builder.offspring_size,
        r.elite_size == builder.elite_size,
        r.rosomaxa == builder.rosomaxa,
        r.logging_enabled == builder.logging_enabled,
        match *termination_config {
            Some(cfg) => {
                &&& r.max_generations == cfg.max_generations
                &&& (match cfg.max_time {
                    Some(t) => r.max_time_ms == Some((((if t <= 0xFFFF_FFFFusize {
                        t
                    } else {
                        0xFFFF_FFFFusize
                    }) as u64) * 1000) as u64),
                    None => r.max_time_ms is None,
                })
                &&& (match cfg.variation {
                    Some(v) => r.variation == Some((v.sample, v.cv_permille)),
                    None => r.variation is None,
                })
            },
            None => r == builder,
        },
{
    match termination_config {
        Some(cfg) => {
            let mut builder = builder.with_max_time(cfg.max_time);
            builder = builder.with_max_generations(cfg.max_generations);
            let variation = match &cfg.variation {
                Some(v) => Some((v.sample, v.cv_permille)),
                None => None,
            };
            builder.with_cost_variation(variation)
        },
        None => builder,
    }
}

/// Applies the logging section to a builder.  An absent section, or one
/// that enables logging, leaves the builder as it is (logging is on by
/// default); only a section that disables logging changes it, installing
/// the no-op sink.
pub fn configure_from_logging(builder: Builder, logging_config: &Option<LoggingConfig>) -> (r:
    Builder)
    ensures
        match *logging_config {
            Some(cfg) => if cfg.enabled {
                r == builder
            } else {
                r == (Builder { logging_enabled: false, ..builder })
            },
            None => r == builder,
        },
{
    let is_enabled = match logging_config {
        Some(cfg) => cfg.enabled,
        None => true,
    };
    if !is_enabled {
        builder.with_logging(false)
    } else {
        builder
    }
}

/// A configuration is rejected exactly when its mutation section is.
pub open spec fn config_rejected(c: Config) -> bool {
    match c.mutation {
        Some(mc) => mutation_config_rejected(mc),
        None => false,
    }
}

/// What an accepted configuration maps to: every present section applied
/// exactly, every absent section left at the documented default.
pub open spec fn builder_matches(b: Builder, problem: Problem, c: Config) -> bool {
    &&& b.problem == problem
    &&& b.rosomaxa is None
    &&& b.logging_enabled == (match c.logging {
        Some(l) => l.enabled,
        None => true,
    })
    &&& (match c.population {
        Some(pc) => {
            &&& (match pc.initial_methods {
                Some(ms) => b.initial_methods@ == ms@.map_values(
                    |m: RecreateMethod| spec_create_recreate(m),
                ),
                None => b.initial_methods@ == seq![
                    (
                        crate::mutation::RecreateStrategy::Cheapest(
                            (crate::recreate::RecreateWithCheapest {  }),
                        ),
                        1usize,
                    ),
                ],
            })
            &&& b.initial_size == (match pc.initial_size {
                Some(v) => v,
                None => crate::solver::DEFAULT_INITIAL_SIZE,
            })
            &&& b.population_size == (match pc.population_size {
                Some(v) => v,
                None => crate::solver::DEFAULT_POPULATION_SIZE,
            })
            &&& b.offspring_size == (match pc.offspring_size {
                Some(v) => v,
                None => crate::solver::DEFAULT_OFFSPRING_SIZE,
            })
            &&& b.elite_size == (match pc.elite_size {
                Some(v) => v,
                None => crate::solver::DEFAULT_ELITE_SIZE,
            })
        },
        None => {
            &&& b.initial_methods@ == seq![
                (
                    crate::mutation::RecreateStrategy::Cheapest(
                        (crate::recreate::RecreateWithCheapest {  }),
                    ),
                    1usize,
                ),
            ]
            &&& b.initial_size == crate::solver::DEFAULT_INITIAL_SIZE
            &&& b.population_size == crate::solver::DEFAULT_POPULATION_SIZE
            &&& b.offspring_size == crate::solver::DEFAULT_OFFSPRING_SIZE
            &&& b.elite_size == crate::solver::DEFAULT_ELITE_SIZE
        },
    })
    &&& (match c.mutation {
        Some(mc) => mutation_matches(b.mutation, problem, mc),
        None => crate::solver::is_default_mutation(b.mutation),
    })
    &&& (match c.termination {
        Some(t) => {
            &&& b.max_generations == t.max_generations
            &&& (match t.max_time {
                Some(secs) => b.max_time_ms == Some((((if secs <= 0xFFFF_FFFFusize {
                    secs
                } else {
                    0xFFFF_FFFFusize
                }) as u64) * 1000) as u64),
                None => b.max_time_ms is None,
            })
            &&& (match t.variation {
                Some(v) => b.variation == Some((v.sample, v.cv_permille)),
                None => b.variation is None,
            })
        },
        None => {
            &&& b.max_time_ms is None
            &&& b.max_generations is None
            &&& b.variation is None
        },
    })
}

/// Creates a solver builder from a configuration: every present section is
/// applied exactly and every absent one falls back to the documented
/// default.  Returns an error exactly when the configuration is rejected.
pub fn create_builder_from_config(problem: Problem, config: &Config) -> (r: Result<
    Builder,
    String,
>)
    requires
        problem.wf(),
    ensures
        r is Err <==> config_rejected(*config),
        r matches Ok(b) ==> builder_matches(b, problem, *config),
{
    let mut builder = Builder::new(problem);
    builder = configure_from_logging(builder, &config.logging);
    builder = configure_from_population(builder, &config.population);
    let with_mutation = configure_from_mutation(builder, &config.mutation);
    match with_mutation {
        Ok(b) => Ok(configure_from_termination(b, &config.termination)),
        Err(e) => Err(e),
    }
}


/// Character-by-character string equality, proved against the views.
pub fn str_eq(a: &str, b: &str) -> (r: bool)
    ensures
        r == (a@ == b@),
{
    let la = a.unicode_len();
    let lb = b.unicode_len();
    if la != lb {
        return false;
    }
    let mut i: usize = 0;
    while i < la
        invariant
            i <= la,
            la as nat == a@.len(),
            la as nat == b@.len(),
            forall|t: int| 0 <= t < i ==> a@[t] == b@[t],
        decreases la - i,
    {
        let ca = a.get_char(i);
        let cb = b.get_char(i);
        if ca != cb {
            return false;
        }
        i += 1;
    }
    proof {
        assert(a@ =~= b@);
    }
    true
}

/// The opaque JSON value type of the parser.
#[verifier::external_type_specification]
#[verifier::external_body]
pub struct ExValue(serde_json::Value);

/// Relies on `serde_json::from_str::<Value>`: parses a JSON document into a
/// value tree, or reports the parse error as text.
#[verifier::external_body]
fn parse_json(s: &str) -> Result<serde_json::Value, String> {
    serde_json::from_str(s).map_err(|e| format!("cannot deserialize config: '{}'", e))
}

/// Relies on `serde_json::Value::get`: the member of an object under a key.
#[verifier::external_body]
fn json_get<'a>(v: &'a serde_json::Value, key: &str) -> Option<&'a serde_json::Value> {
    v.get(key)
}

/// Relies on `serde_json::Value::as_u64`: the value as an unsigned integer.
#[verifier::external_body]
fn json_as_u64(v: &serde_json::Value) -> Option<u64> {
    v.as_u64()
}

/// Relies on `serde_json::Value::as_bool`: the value as a boolean.
#[verifier::external_body]
fn json_as_bool(v: &serde_json::Value) -> Option<bool> {
    v.as_bool()
}

/// Relies on `serde_json::Value::as_str`: the value as a string slice.
#[verifier::external_body]
fn json_as_str<'a>(v: &'a serde_json::Value) -> Option<&'a str> {
    v.as_str()
}

/// Relies on `serde_json::Value::as_array`: the value as an array.
#[verifier::external_body]
fn json_as_array<'a>(v: &'a serde_json::Value) -> Option<&'a Vec<serde_json::Value>> {
    v.as_array()
}

/// An optional unsigned member, rejected when present but not an integer
/// that fits the machine word.
fn get_opt_usize(v: &serde_json::Value, key: &str) -> Result<Option<usize>, String> {
    match json_get(v, key) {
        Some(x) => match json_as_u64(x) {
            Some(n) => {
                if n <= usize::MAX as u64 {
                    Ok(Some(n as usize))
                } else {
                    Err("an integer member is out of range".to_string())
                }
            },
            None => Err("a member that must be an unsigned integer is not".to_string()),
        },
        None => Ok(None),
    }
}

/// A required unsigned member.
fn get_usize(v: &serde_json::Value, key: &str) -> Result<usize, String> {
    match get_opt_usize(v, key) {
        Ok(Some(n)) => Ok(n),
        Ok(None) => Err("a required integer member is missing".to_string()),
        Err(e) => Err(e),
    }
}

/// A required fraction member in thousandths.
fn get_permille(v: &serde_json::Value, key: &str) -> Result<u32, String> {
    match json_get(v, key) {
        Some(x) => match json_as_u64(x) {
            Some(n) => {
                if n <= 1000 {
                    Ok(n as u32)
                } else {
                    Err("a fraction in thousandths exceeds 1000".to_string())
                }
            },
            None => Err("a fraction member must be an unsigned integer".to_string()),
        },
        None => Err("a required fraction member is missing".to_string()),
    }
}

/// One recreate method from its JSON form.
fn parse_recreate_method(v: &serde_json::Value) -> Result<RecreateMethod, String> {
    let tag = match json_get(v, "type") {
        Some(t) => match json_as_str(t) {
            Some(s) => s,
            None => {
                return Err("a recreate method's type must be a string".to_string());
            },
        },
        None => {
            return Err("a recreate method names no type".to_string());
        },
    };
    if str_eq(tag, "cheapest") {
        let weight = get_usize(v, "weight")?;
        Ok(RecreateMethod::Cheapest { weight })
    } else if str_eq(tag, "regret") {
        let weight = get_usize(v, "weight")?;
        let start = get_usize(v, "start")?;
        let end = get_usize(v, "end")?;
        Ok(RecreateMethod::Regret { weight, start, end })
    } else if str_eq(tag, "blinks") {
        let weight = get_usize(v, "weight")?;
        Ok(RecreateMethod::Blinks { weight })
    } else if str_eq(tag, "gaps") {
        let weight = get_usize(v, "weight")?;
        let min = get_usize(v, "min")?;
        Ok(RecreateMethod::Gaps { weight, min })
    } else if str_eq(tag, "nearest") {
        let weight = get_usize(v, "weight")?;
        Ok(RecreateMethod::Nearest { weight })
    } else {
        Err("unknown recreate method type".to_string())
    }
}

/// One ruin method from its JSON form.
fn parse_ruin_method(v: &serde_json::Value) -> Result<RuinMethod, String> {
    let tag = match json_get(v, "type") {
        Some(t) => match json_as_str(t) {
            Some(s) => s,
            None => {
                return Err("a ruin method's type must be a string".to_string());
            },
        },
        None => {
            return Err("a ruin method names no type".to_string());
        },
    };
    if str_eq(tag, "adjusted-string") {
        let probability_permille = get_permille(v, "probability_permille")?;
        let lmax = get_usize(v, "lmax")?;
        let cavg = get_usize(v, "cavg")?;
        let alpha_permille = get_permille(v, "alpha_permille")?;
        Ok(RuinMethod::AdjustedString { probability_permille, lmax, cavg, alpha_permille })
    } else if str_eq(tag, "neighbour") {
        let probability_permille = get_permille(v, "probability_permille")?;
        let min = get_usize(v, "min")?;
        let max = get_usize(v, "max")?;
        let threshold_permille = get_permille(v, "threshold_permille")?;
        Ok(RuinMethod::Neighbour { probability_permille, min, max, threshold_permille })
    } else if str_eq(tag, "random-job") {
        let probability_permille = get_permille(v, "probability_permille")?;
        let min = get_usize(v, "min")?;
        let max = get_usize(v, "max")?;
        let threshold_permille = get_permille(v, "threshold_permille")?;
        Ok(RuinMethod::RandomJob { probability_permille, min, max, threshold_permille })
    } else if str_eq(tag, "random-route") {
        let probability_permille = get_permille(v, "probability_permille")?;
        let min = get_usize(v, "min")?;
        let max = get_usize(v, "max")?;
        let threshold_permille = get_permille(v, "threshold_permille")?;
        Ok(RuinMethod::RandomRoute { probability_permille, min, max, threshold_permille })
    } else if str_eq(tag, "worst-job") {
        let probability_permille = get_permille(v, "probability_permille")?;
        let min = get_usize(v, "min")?;
        let max = get_usize(v, "max")?;
        let threshold_permille = get_permille(v, "threshold_permille")?;
        let skip = get_usize(v, "skip")?;
        Ok(RuinMethod::WorstJob { probability_permille, min, max, threshold_permille, skip })
    } else if str_eq(tag, "cluster") {
        let probability_permille = get_permille(v, "probability_permille")?;
        let min = get_usize(v, "min")?;
        let max = get_usize(v, "max")?;
        let threshold_permille = get_permille(v, "threshold_permille")?;
        let cmin = get_usize(v, "cmin")?;
        let cmax = get_usize(v, "cmax")?;
        Ok(
            RuinMethod::Cluster {
                probability_permille,
                min,
                max,
                threshold_permille,
                cmin,
                cmax,
            },
        )
    } else {
        Err("unknown ruin method type".to_string())
    }
}

/// A list of recreate methods from a JSON array.
fn parse_recreate_list(v: &serde_json::Value) -> Result<Vec<RecreateMethod>, String> {
    let arr = match json_as_array(v) {
        Some(a) => a,
        None => {
            return Err("a recreate method list must be an array".to_string());
        },
    };
    let mut out: Vec<RecreateMethod> = Vec::new();
    let mut i: usize = 0;
    while i < arr.len()
        decreases arr@.len() - i,
    {
        let m = parse_recreate_method(&arr[i])?;
        out.push(m);
        i += 1;
    }
    Ok(out)
}

/// The population section from its JSON form.
fn parse_population(v: &serde_json::Value) -> Result<PopulationConfig, String> {
    let initial_methods = match json_get(v, "initialMethods") {
        Some(ms) => Some(parse_recreate_list(ms)?),
        None => None,
    };
    let initial_size = get_opt_usize(v, "initialSize")?;
    let population_size = get_opt_usize(v, "populationSize")?;
    let offspring_size = get_opt_usize(v, "offspringSize")?;
    let elite_size = get_opt_usize(v, "eliteSize")?;
    Ok(
        PopulationConfig {
            initial_methods,
            initial_size,
            population_size,
            offspring_size,
            elite_size,
        },
    )
}

/// The mutation section from its JSON form.
fn parse_mutation(v: &serde_json::Value) -> Result<MutationConfig, String> {
    let tag = match json_get(v, "type") {
        Some(t) => match json_as_str(t) {
            Some(s) => s,
            None => {
                return Err("the mutation type must be a string".to_string());
            },
        },
        None => {
            return Err("the mutation section names no type".to_string());
        },
    };
    if !str_eq(tag, "ruin-recreate") {
        return Err("unknown mutation type".to_string());
    }
    let ruins_v = match json_get(v, "ruins") {
        Some(r) => r,
        None => {
            return Err("the mutation section names no ruins".to_string());
        },
    };
    let ruins_arr = match json_as_array(ruins_v) {
        Some(a) => a,
        None => {
            return Err("the ruins member must be an array".to_string());
        },
    };
    let mut ruins: Vec<ConfigRuinGroup> = Vec::new();
    let mut i: usize = 0;
    while i < ruins_arr.len()
        decreases ruins_arr@.len() - i,
    {
        let g = &ruins_arr[i];
        let methods_v = match json_get(g, "methods") {
            Some(m) => m,
            None => {
                return Err("a ruin group names no methods".to_string());
            },
        };
        let methods_arr = match json_as_array(methods_v) {
            Some(a) => a,
            None => {
                return Err("a ruin group's methods must be an array".to_string());
            },
        };
        let mut methods: Vec<RuinMethod> = Vec::new();
        let mut k: usize = 0;
        while k < methods_arr.len()
            decreases methods_arr@.len() - k,
        {
            let m = parse_ruin_method(&methods_arr[k])?;
            methods.push(m);
            k += 1;
        }
        let weight = get_usize(g, "weight")?;
        ruins.push(ConfigRuinGroup { methods, weight });
        i += 1;
    }
    let recreates_v = match json_get(v, "recreates") {
        Some(r) => r,
        None => {
            return Err("the mutation section names no recreates".to_string());
        },
    };
    let recreates = parse_recreate_list(recreates_v)?;
    Ok(MutationConfig::RuinRecreate { ruins, recreates })
}

/// The termination section from its JSON form.
fn parse_termination(v: &serde_json::Value) -> Result<TerminationConfig, String> {
    let max_time = get_opt_usize(v, "maxTime")?;
    let max_generations = get_opt_usize(v, "maxGenerations")?;
    let variation = match json_get(v, "variation") {
        Some(w) => {
            let sample = get_usize(w, "sample")?;
            let cv_permille = get_permille(w, "cv_permille")?;
            Some(VariationConfig { sample, cv_permille })
        },
        None => None,
    };
    Ok(TerminationConfig { max_time, max_generations, variation })
}

/// The logging section from its JSON form.
fn parse_logging(v: &serde_json::Value) -> Result<LoggingConfig, String> {
    match json_get(v, "enabled") {
        Some(b) => match json_as_bool(b) {
            Some(enabled) => Ok(LoggingConfig { enabled }),
            None => Err("the logging toggle must be a boolean".to_string()),
        },
        None => Err("the logging section names no toggle".to_string()),
    }
}

/// Reads a configuration from its JSON text.  Parsing goes through
/// `serde_json` behind trusted wrappers; the mapping of the parsed tree
/// onto the configuration values is verified code, and every malformed
/// section is reported as an error rather than a panic.
pub fn read_config(config_text: &str) -> Result<Config, String> {
    let root = match parse_json(config_text) {
        Ok(v) => v,
        Err(e) => {
            return Err(e);
        },
    };
    let population = match json_get(&root, "population") {
        Some(v) => Some(parse_population(v)?),
        None => None,
    };
    let mutation = match json_get(&root, "mutation") {
        Some(v) => Some(parse_mutation(v)?),
        None => None,
    };
    let termination = match json_get(&root, "termination") {
        Some(v) => Some(parse_termination(v)?),
        None => None,
    };
    let logging = match json_get(&root, "logging") {
        Some(v) => Some(parse_logging(v)?),
        None => None,
    };
    Ok(Config { population, mutation, termination, logging })
}

/// Creates a solver builder from a configuration document: the text is
/// read into a configuration and the builder is built from it, so the
/// result is exactly the builder of some accepted configuration.  Fails
/// when the text does not parse, a section is malformed, or the
/// configuration is rejected.
pub fn create_builder_from_config_file(problem: Problem, config_text: &str) -> (r: Result<
    Builder,
    String,
>)
    requires
        problem.wf(),
    ensures
        r matches Ok(b) ==> exists|c: Config| !config_rejected(c) && builder_matches(
            b,
            problem,
            c,
        ),
{
    match read_config(config_text) {
        Ok(config) => {
            let out = create_builder_from_config(problem, &config);
            proof {
                if out is Ok {
                    assert(!config_rejected(config) && builder_matches(
                        out->Ok_0,
                        problem,
                        config,
                    ));
                }
            }
            out
        },
        Err(e) => Err(e),
    }
}

} // verus!
