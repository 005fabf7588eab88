use ruin_recreate::model::{Matrix, Problem, Individual, Fitness, total_cost};
use ruin_recreate::rng::Rng;
use ruin_recreate::limit::RemovalLimit;
use ruin_recreate::ruin::RandomJobRemoval;
use ruin_recreate::recreate::RecreateWithCheapest;
use ruin_recreate::mutation::{RuinStrategy, RecreateStrategy, RuinGroup, CompositeRuin, CompositeRecreate, RuinAndRecreateMutation};
use ruin_recreate::population::{Elitism, Rosomaxa, RosomaxaConfig, Population};
use ruin_recreate::termination::Termination;
use ruin_recreate::solver::Builder;

fn line_problem(n: usize, n_routes: usize, capacity: usize) -> Problem {
    let mut rows = Vec::new();
    for i in 0..n {
        let mut row = Vec::new();
        for j in 0..n {
            let d = if i > j { i - j } else { j - i };
            row.push(d as u64);
        }
        rows.push(row);
    }
    Problem::new(n, n_routes, capacity, vec![Matrix { costs: rows }]).unwrap()
}

fn assigned_individual(p: &Problem, seed: u64) -> Individual {
    let mut ind = Individual::empty(p);
    let mut rng = Rng::new(seed);
    RecreateWithCheapest::new().run(&mut rng, p, &mut ind);
    ind
}

fn fitness_of(p: &Problem, ind: &Individual) -> Fitness {
    Fitness { unassigned: ind.unassigned.len(), cost: total_cost(ind, p) }
}

#[test]
fn elitism_best_is_monotone() {
    let p = line_problem(6, 2, 6);
    let mut pop = Elitism::new(3, &p);
    let mut last_best: Option<Fitness> = None;
    for seed in 0..10u64 {
        let ind = assigned_individual(&p, seed);
        let fit = fitness_of(&p, &ind);
        pop.add(ind, fit, &p);
        let best = pop.best().1;
        if let Some(prev) = last_best {
            assert!(best.le(&prev), "best fitness worsened after an add");
        }
        assert!(best.le(&fit));
        last_best = Some(best);
    }
}

#[test]
fn rosomaxa_never_discards_the_best() {
    let p = line_problem(6, 2, 6);
    let config = RosomaxaConfig {
        selection_size: 2,
        max_elite_size: 2,
        max_node_size: 2,
        spread_factor_permille: 500,
        reduction_factor_permille: 100,
        distribution_factor_permille: 250,
        learning_rate_permille: 100,
        hit_memory: 100,
        rebalance_count: 4,
        exploration_ratio_permille: 900,
    };
    let mut pop = Rosomaxa::new(config, &p);
    let first = assigned_individual(&p, 0);
    let first_fit = fitness_of(&p, &first);
    pop.add(first, first_fit, &p);
    for seed in 1..12u64 {
        let ind = assigned_individual(&p, seed);
        let fit = fitness_of(&p, &ind);
        pop.add(ind, fit, &p);
    }
    // whatever was inserted later, the best is at least as good as the
    // first-generation candidate
    assert!(pop.best().1.le(&first_fit));
}

#[test]
fn population_select_returns_candidates() {
    let p = line_problem(6, 2, 6);
    let mut pop = Population::Elitist(Elitism::new(3, &p));
    let ind = assigned_individual(&p, 1);
    let fit = fitness_of(&p, &ind);
    pop.add(ind, fit, &p);
    let mut rng = Rng::new(5);
    for _ in 0..5 {
        let parent = pop.select(&mut rng, &p);
        assert_eq!(parent.unassigned.len() + parent.routes.iter().map(|r| r.len()).sum::<usize>(), 6);
    }
}

#[test]
fn termination_by_generations_is_exact() {
    let p = line_problem(8, 2, 8);
    let builder = Builder::new(p).with_max_generations(Some(5)).with_logging(false);
    let (_, stats) = builder.run(Rng::new(3)).unwrap();
    assert_eq!(stats.generations, 5);
}

#[test]
fn termination_by_zero_variation_halts() {
    let t = Termination { max_time_ms: None, max_generations: None, variation: Some((10, 0)) };
    // ten consecutive generations with the same best cost
    let history = vec![7u64; 10];
    assert!(t.should_stop(42, 0, &history));
    // still improving: no stop
    let improving = vec![10u64, 9, 8, 7, 6, 5, 4, 3, 2, 1];
    assert!(!t.should_stop(42, 0, &improving));
    // too little history: no stop
    let short = vec![7u64; 9];
    assert!(!t.should_stop(42, 0, &short));
}

#[test]
fn end_to_end_search_improves_the_initial_candidate() {
    // 3 routes, 20 work units, random removal + cheapest insertion
    let p = line_problem(20, 3, 20);
    let initial = assigned_individual(&p, 0);
    let initial_fit = fitness_of(&p, &initial);
    assert_eq!(initial.unassigned.len(), 0);

    let limit = RemovalLimit::new(2, 5, 500);
    let ruin = CompositeRuin::new(vec![RuinGroup {
        methods: vec![(RuinStrategy::RandomJob(RandomJobRemoval::new(limit)), 1000)],
        weight: 1,
    }]);
    let recreate = CompositeRecreate::new(vec![(
        RecreateStrategy::Cheapest(RecreateWithCheapest::new()),
        1,
    )]);
    let mutation = RuinAndRecreateMutation::new(recreate, ruin);
    let builder = Builder::new(p)
        .with_mutation(mutation)
        .with_max_generations(Some(50))
        .with_logging(false);
    let (best, stats) = builder.run(Rng::new(123)).unwrap();
    assert_eq!(stats.generations, 50);
    assert_eq!(best.unassigned.len(), 0);
    let p2 = line_problem(20, 3, 20);
    let best_fit = fitness_of(&p2, &best);
    assert!(best_fit.le(&initial_fit), "the search worsened the initial candidate");
}

#[test]
fn rejected_configurations_fail_before_the_loop() {
    let p = line_problem(4, 2, 4);
    let builder = Builder::new(p).with_initial_size(0);
    assert!(builder.run(Rng::new(1)).is_err());
    let p2 = line_problem(4, 2, 4);
    let builder2 = Builder::new(p2).with_population_size(0);
    assert!(builder2.run(Rng::new(1)).is_err());
}

#[test]
fn adaptive_archive_runs_end_to_end() {
    let p = line_problem(12, 2, 12);
    let config = RosomaxaConfig {
        selection_size: 2,
        max_elite_size: 2,
        max_node_size: 2,
        spread_factor_permille: 500,
        reduction_factor_permille: 100,
        distribution_factor_permille: 250,
        learning_rate_permille: 100,
        hit_memory: 100,
        rebalance_count: 5,
        exploration_ratio_permille: 500,
    };
    let builder = Builder::new(p)
        .with_rosomaxa(Some(config))
        .with_max_generations(Some(30))
        .with_logging(false);
    let (best, stats) = builder.run(Rng::new(77)).unwrap();
    assert_eq!(stats.generations, 30);
    assert_eq!(best.unassigned.len(), 0);
}

#[test]
fn zero_time_budget_stops_after_one_generation() {
    let p = line_problem(8, 2, 8);
    let builder = Builder::new(p)
        .with_max_time(Some(0))
        .with_max_generations(Some(1000))
        .with_logging(false);
    let (_, stats) = builder.run(Rng::new(5)).unwrap();
    assert_eq!(stats.generations, 1);
}

#[test]
fn zero_weight_method_lists_are_rejected() {
    let p = line_problem(4, 2, 4);
    let builder = Builder::new(p).with_initial_methods(vec![(
        RecreateStrategy::Cheapest(RecreateWithCheapest::new()),
        0,
    )]);
    assert!(builder.run(Rng::new(1)).is_err());
}

#[test]
fn can_create_default_config() {
    // a builder over an empty configuration carries the documented defaults
    let p = line_problem(6, 2, 6);
    let builder = Builder::new(p);
    assert_eq!(builder.initial_size, 1);
    assert_eq!(builder.population_size, 4);
    assert_eq!(builder.offspring_size, 1);
    assert_eq!(builder.elite_size, 2);
    assert_eq!(builder.initial_methods.len(), 1);
    assert!(builder.rosomaxa.is_none());
    assert!(builder.max_time_ms.is_none());
    assert!(builder.max_generations.is_none());
    assert!(builder.variation.is_none());
    assert!(builder.logging_enabled);
}
