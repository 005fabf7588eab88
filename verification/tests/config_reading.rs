use ruin_recreate::config::{read_config, create_builder_from_config, create_builder_from_config_file, configure_from_logging, RecreateMethod, RuinMethod, MutationConfig, LoggingConfig};
use ruin_recreate::solver::Builder;
use ruin_recreate::model::{Matrix, Problem};

fn line_problem(n: usize, n_routes: usize, capacity: usize) -> Problem {
    let mut rows = Vec::new();
    for i in 0..n {
        let mut row = Vec::new();
        for j in 0..n {
            let d = if i > j { i - j } else { j - i };
            row.push(d as u64);
        }
        rows.push(row);
    }
    Problem::new(n, n_routes, capacity, vec![Matrix { costs: rows }]).unwrap()
}

fn full_config_text() -> String {
    let mut s = String::new();
    s.push_str("{");
    s.push_str("\"population\": {");
    s.push_str("\"initialMethods\": [{\"type\": \"cheapest\", \"weight\": 1}],");
    s.push_str("\"initialSize\": 1, \"populationSize\": 8, \"offspringSize\": 2, \"eliteSize\": 2},");
    s.push_str("\"mutation\": {\"type\": \"ruin-recreate\",");
    s.push_str("\"ruins\": [");
    s.push_str("{\"methods\": [{\"type\": \"random-job\", \"probability_permille\": 1000, \"min\": 2, \"max\": 5, \"threshold_permille\": 500}], \"weight\": 10},");
    s.push_str("{\"methods\": [{\"type\": \"adjusted-string\", \"probability_permille\": 500, \"lmax\": 4, \"cavg\": 2, \"alpha_permille\": 100}], \"weight\": 5}");
    s.push_str("],");
    s.push_str("\"recreates\": [");
    s.push_str("{\"type\": \"cheapest\", \"weight\": 5},");
    s.push_str("{\"type\": \"regret\", \"weight\": 3, \"start\": 1, \"end\": 3},");
    s.push_str("{\"type\": \"blinks\", \"weight\": 2},");
    s.push_str("{\"type\": \"gaps\", \"weight\": 1, \"min\": 1},");
    s.push_str("{\"type\": \"nearest\", \"weight\": 2}");
    s.push_str("]},");
    s.push_str("\"termination\": {\"maxTime\": 300, \"maxGenerations\": 3000,");
    s.push_str("\"variation\": {\"sample\": 10, \"cv_permille\": 0}},");
    s.push_str("\"logging\": {\"enabled\": true}");
    s.push_str("}");
    s
}

#[test]
fn can_read_config() {
    let config = read_config(&full_config_text()).unwrap();

    let population = config.population.expect("no population config");
    let methods = population.initial_methods.expect("no initial methods");
    assert_eq!(methods.len(), 1);
    assert!(matches!(methods[0], RecreateMethod::Cheapest { weight: 1 }));
    assert_eq!(population.initial_size, Some(1));
    assert_eq!(population.population_size, Some(8));
    assert_eq!(population.offspring_size, Some(2));
    assert_eq!(population.elite_size, Some(2));

    let mutation = config.mutation.expect("cannot get mutation");
    let MutationConfig::RuinRecreate { ruins, recreates } = mutation;
    assert_eq!(ruins.len(), 2);
    assert_eq!(ruins[0].weight, 10);
    assert_eq!(ruins[0].methods.len(), 1);
    assert!(matches!(
        ruins[0].methods[0],
        RuinMethod::RandomJob { probability_permille: 1000, min: 2, max: 5, threshold_permille: 500 }
    ));
    assert_eq!(recreates.len(), 5);

    let termination = config.termination.expect("no termination config");
    assert_eq!(termination.max_time, Some(300));
    assert_eq!(termination.max_generations, Some(3000));
    let variation = termination.variation.expect("no variation config");
    assert_eq!(variation.sample, 10);
    assert_eq!(variation.cv_permille, 0);

    let logging = config.logging.expect("no logging config");
    assert!(logging.enabled);
}

#[test]
fn can_create_builder_from_config() {
    let config = read_config(&full_config_text()).unwrap();
    let problem = line_problem(10, 2, 10);
    let builder = create_builder_from_config(problem, &config).unwrap();
    assert_eq!(builder.max_time_ms, Some(300_000));
    assert_eq!(builder.max_generations, Some(3000));
    assert_eq!(builder.variation, Some((10, 0)));
    assert_eq!(builder.initial_size, 1);
    assert_eq!(builder.population_size, 8);
    assert_eq!(builder.elite_size, 2);
    assert!(builder.logging_enabled);
    assert_eq!(builder.initial_methods.len(), 1);
    assert_eq!(builder.mutation.ruin.groups.len(), 2);
    assert_eq!(builder.mutation.recreate.methods.len(), 5);
}

#[test]
fn can_create_builder_from_config_text() {
    let problem = line_problem(10, 2, 10);
    let builder = create_builder_from_config_file(problem, &full_config_text()).unwrap();
    assert_eq!(builder.max_generations, Some(3000));
}

#[test]
fn malformed_configs_are_rejected() {
    // not JSON at all
    assert!(read_config("not json").is_err());
    // unknown mutation type
    let bad_type = "{\"mutation\": {\"type\": \"local-search\"}}";
    assert!(read_config(bad_type).is_err());
    // unknown recreate method
    let bad_recreate = "{\"population\": {\"initialMethods\": [{\"type\": \"magic\", \"weight\": 1}]}}";
    assert!(read_config(bad_recreate).is_err());
    // a fraction above one
    let bad_fraction = "{\"mutation\": {\"type\": \"ruin-recreate\", \"ruins\": [{\"methods\": [{\"type\": \"random-job\", \"probability_permille\": 2000, \"min\": 1, \"max\": 2, \"threshold_permille\": 500}], \"weight\": 1}], \"recreates\": [{\"type\": \"cheapest\", \"weight\": 1}]}}";
    assert!(read_config(bad_fraction).is_err());
}

#[test]
fn contradictory_limits_are_rejected() {
    // min > max in a removal limit is refused when the builder is assembled
    let text = "{\"mutation\": {\"type\": \"ruin-recreate\", \"ruins\": [{\"methods\": [{\"type\": \"random-job\", \"probability_permille\": 1000, \"min\": 9, \"max\": 2, \"threshold_permille\": 500}], \"weight\": 1}], \"recreates\": [{\"type\": \"cheapest\", \"weight\": 1}]}}";
    let config = read_config(text).unwrap();
    let problem = line_problem(6, 2, 6);
    assert!(create_builder_from_config(problem, &config).is_err());
    // an empty ruin group is refused
    let empty_group = "{\"mutation\": {\"type\": \"ruin-recreate\", \"ruins\": [{\"methods\": [], \"weight\": 1}], \"recreates\": [{\"type\": \"cheapest\", \"weight\": 1}]}}";
    let config2 = read_config(empty_group).unwrap();
    let problem2 = line_problem(6, 2, 6);
    assert!(create_builder_from_config(problem2, &config2).is_err());
}

#[test]
fn configured_solver_runs_end_to_end() {
    let text = "{\"population\": {\"initialSize\": 1}, \"mutation\": {\"type\": \"ruin-recreate\", \"ruins\": [{\"methods\": [{\"type\": \"random-job\", \"probability_permille\": 1000, \"min\": 1, \"max\": 3, \"threshold_permille\": 300}], \"weight\": 1}], \"recreates\": [{\"type\": \"cheapest\", \"weight\": 1}]}, \"termination\": {\"maxGenerations\": 10}, \"logging\": {\"enabled\": false}}";
    let problem = line_problem(8, 2, 8);
    let builder = create_builder_from_config_file(problem, text).unwrap();
    let (best, stats) = builder.run(ruin_recreate::rng::Rng::new(7)).unwrap();
    assert_eq!(stats.generations, 10);
    assert_eq!(best.unassigned.len(), 0);
}

#[test]
fn logging_section_only_disables() {
    // an absent section or an enabling one leaves the builder as it is,
    // even when logging was already switched off
    let p = line_problem(4, 2, 4);
    let off = Builder::new(p).with_logging(false);
    let off = configure_from_logging(off, &None);
    assert!(!off.logging_enabled);
    let off = configure_from_logging(off, &Some(LoggingConfig { enabled: true }));
    assert!(!off.logging_enabled);
    // only a disabling section changes an enabled builder
    let p2 = line_problem(4, 2, 4);
    let on = Builder::new(p2);
    assert!(on.logging_enabled);
    let disabled = configure_from_logging(on, &Some(LoggingConfig { enabled: false }));
    assert!(!disabled.logging_enabled);
}
