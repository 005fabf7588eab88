use ruin_recreate::model::{Matrix, Problem, Individual, Fitness, total_cost, copy_individual};
use ruin_recreate::rng::Rng;
use ruin_recreate::limit::RemovalLimit;
use ruin_recreate::select::select_weighted;
use ruin_recreate::sorting::{sort_pairs, sort_u64s};
use ruin_recreate::ruin::{RandomJobRemoval, NeighbourRemoval, RandomRouteRemoval, WorstJobRemoval, AdjustedStringRemoval};
use ruin_recreate::cluster::{ClusterRemoval, create_clusters, estimate_epsilon, max_curvature};
use ruin_recreate::recreate::{RecreateWithCheapest, RecreateWithRegret, RecreateWithBlinks, RecreateWithGaps, RecreateWithNearestNeighbor};

fn matrix_from(rows: Vec<Vec<u64>>) -> Matrix {
    Matrix { costs: rows }
}

/// A problem with `n` jobs on a line: cost between jobs i and j is |i-j|.
fn line_problem(n: usize, n_routes: usize, capacity: usize) -> Problem {
    let mut rows = Vec::new();
    for i in 0..n {
        let mut row = Vec::new();
        for j in 0..n {
            let d = if i > j { i - j } else { j - i };
            row.push(d as u64);
        }
        rows.push(row);
    }
    Problem::new(n, n_routes, capacity, vec![matrix_from(rows)]).unwrap()
}

/// All jobs of a candidate, assigned and unassigned, sorted.
fn all_jobs(ind: &Individual) -> Vec<usize> {
    let mut out = Vec::new();
    for r in &ind.routes {
        for &j in r {
            out.push(j);
        }
    }
    for &j in &ind.unassigned {
        out.push(j);
    }
    out.sort();
    out
}

fn full_assignment(p: &Problem, seed: u64) -> Individual {
    let mut ind = Individual::empty(p);
    let mut rng = Rng::new(seed);
    RecreateWithCheapest::new().run(&mut rng, p, &mut ind);
    ind
}

#[test]
fn removal_limit_clamps_and_caps() {
    let limit = RemovalLimit::new(2, 5, 500);
    // round(0.5 * 20) = 10, clamped to 5
    assert_eq!(limit.removal_count(20), 5);
    // round(0.5 * 6) = 3, inside [2, 5]
    assert_eq!(limit.removal_count(6), 3);
    // round(0.5 * 2) = 1, clamped up to 2, capped by size 2
    assert_eq!(limit.removal_count(2), 2);
    // nothing assigned: nothing to remove
    assert_eq!(limit.removal_count(0), 0);
    // round(0.5 * 1) = 1 (the +500 rounds up), clamp to 2, cap at 1
    assert_eq!(limit.removal_count(1), 1);
}

#[test]
fn random_job_removal_preserves_jobs() {
    let p = line_problem(8, 2, 8);
    let mut ind = full_assignment(&p, 1);
    let before = all_jobs(&ind);
    let mut rng = Rng::new(7);
    RandomJobRemoval::new(RemovalLimit::new(1, 3, 500)).run(&mut rng, &p, &mut ind);
    assert_eq!(all_jobs(&ind), before);
    assert!(ind.unassigned.len() >= 1);
}

#[test]
fn neighbour_removal_preserves_jobs() {
    let p = line_problem(8, 2, 8);
    let mut ind = full_assignment(&p, 2);
    let before = all_jobs(&ind);
    let mut rng = Rng::new(9);
    NeighbourRemoval::new(RemovalLimit::new(2, 4, 500)).run(&mut rng, &p, &mut ind);
    assert_eq!(all_jobs(&ind), before);
    assert!(ind.unassigned.len() >= 2);
}

#[test]
fn random_route_removal_preserves_jobs() {
    let p = line_problem(9, 3, 9);
    let mut ind = full_assignment(&p, 3);
    let before = all_jobs(&ind);
    let mut rng = Rng::new(11);
    RandomRouteRemoval::new(1, 2, 500).run(&mut rng, &p, &mut ind);
    assert_eq!(all_jobs(&ind), before);
}

#[test]
fn worst_job_removal_preserves_jobs() {
    let p = line_problem(8, 2, 8);
    let mut ind = full_assignment(&p, 4);
    let before = all_jobs(&ind);
    let mut rng = Rng::new(13);
    WorstJobRemoval::new(1, RemovalLimit::new(1, 3, 500)).run(&mut rng, &p, &mut ind);
    assert_eq!(all_jobs(&ind), before);
}

#[test]
fn adjusted_string_removal_preserves_jobs() {
    let p = line_problem(10, 2, 10);
    let mut ind = full_assignment(&p, 5);
    let before = all_jobs(&ind);
    let mut rng = Rng::new(17);
    AdjustedStringRemoval::new(3, 2, 500).run(&mut rng, &p, &mut ind);
    assert_eq!(all_jobs(&ind), before);
}

#[test]
fn cluster_removal_preserves_jobs() {
    let p = line_problem(12, 3, 12);
    let limit = RemovalLimit::new(2, 6, 500);
    let strategy = ClusterRemoval::new(&p, 3, 6, limit);
    let mut ind = full_assignment(&p, 6);
    let before = all_jobs(&ind);
    let mut rng = Rng::new(19);
    strategy.run(&mut rng, &p, &mut ind);
    assert_eq!(all_jobs(&ind), before);
}

#[test]
fn clusters_are_nonempty_disjoint_and_within_jobs() {
    // two tight groups far apart: 0..3 near each other, 8..11 near each other
    let n = 12usize;
    let mut rows = Vec::new();
    for i in 0..n {
        let mut row = Vec::new();
        for j in 0..n {
            let gi = i / 6;
            let gj = j / 6;
            let d = if i == j {
                0
            } else if gi == gj {
                1
            } else {
                1000
            };
            row.push(d as u64);
        }
        rows.push(row);
    }
    let p = Problem::new(n, 2, 12, vec![matrix_from(rows)]).unwrap();
    let clusters = create_clusters(&p, 0, 10, 3);
    assert!(clusters.len() >= 1);
    let mut seen = vec![false; n];
    for c in &clusters {
        assert!(c.len() >= 1);
        for &j in c {
            assert!(j < n);
            assert!(!seen[j], "a job appeared in two clusters");
            seen[j] = true;
        }
    }
}

#[test]
fn epsilon_estimation_is_deterministic_and_zero_on_empty() {
    let p = line_problem(10, 2, 10);
    let a = estimate_epsilon(&p, 2);
    let b = estimate_epsilon(&p, 2);
    assert_eq!(a, b);
    let empty = Problem::new(0, 1, 1, vec![matrix_from(Vec::new())]).unwrap();
    assert_eq!(estimate_epsilon(&empty, 2), 0);
}

#[test]
fn max_curvature_picks_the_knee() {
    // line from (0,0) to (2,10); the middle point (1,1) is farthest from it
    assert_eq!(max_curvature(&vec![0, 1, 10]), 1);
    assert_eq!(max_curvature(&Vec::new()), 0);
}

#[test]
fn recreate_strategies_are_total() {
    let p = line_problem(10, 2, 10);
    for variant in 0..5usize {
        let mut ind = full_assignment(&p, 21);
        let mut rng = Rng::new(23);
        RandomJobRemoval::new(RemovalLimit::new(2, 4, 500)).run(&mut rng, &p, &mut ind);
        let unassigned_before = ind.unassigned.len();
        assert!(unassigned_before >= 2);
        match variant {
            0 => RecreateWithCheapest::new().run(&mut rng, &p, &mut ind),
            1 => RecreateWithRegret::new(1, 2).run(&mut rng, &p, &mut ind),
            2 => RecreateWithBlinks::new(10).run(&mut rng, &p, &mut ind),
            3 => RecreateWithGaps::new(1).run(&mut rng, &p, &mut ind),
            _ => RecreateWithNearestNeighbor::new().run(&mut rng, &p, &mut ind),
        }
        assert!(ind.unassigned.len() <= unassigned_before);
        // the fleet can hold every job, so everything is reinserted
        assert_eq!(ind.unassigned.len(), 0);
        assert_eq!(all_jobs(&ind), (0..10).collect::<Vec<_>>());
    }
}

#[test]
fn weighted_selector_avoids_zero_weights() {
    let mut rng = Rng::new(31);
    let ws = vec![0u64, 5, 0];
    for _ in 0..50 {
        assert_eq!(select_weighted(&mut rng, &ws), 1);
    }
    let ws2 = vec![1u64, 1];
    for _ in 0..50 {
        let k = select_weighted(&mut rng, &ws2);
        assert!(k < 2);
    }
}

#[test]
fn sorting_orders_and_preserves() {
    let mut v = vec![(5u64, 0usize), (1, 1), (3, 2), (1, 3)];
    sort_pairs(&mut v);
    let keys: Vec<u64> = v.iter().map(|p| p.0).collect();
    assert_eq!(keys, vec![1, 1, 3, 5]);
    let mut payloads: Vec<usize> = v.iter().map(|p| p.1).collect();
    payloads.sort();
    assert_eq!(payloads, vec![0, 1, 2, 3]);
    let mut u = vec![9u64, 2, 7, 2];
    sort_u64s(&mut u);
    assert_eq!(u, vec![2, 2, 7, 9]);
}

#[test]
fn seeded_rng_replays() {
    let mut a = Rng::new(42);
    let mut b = Rng::new(42);
    for _ in 0..20 {
        assert_eq!(a.next_u64(), b.next_u64());
    }
    for n in 1..10usize {
        assert!(a.below(n) < n);
    }
}

#[test]
fn deep_copy_matches_original() {
    let p = line_problem(6, 2, 6);
    let ind = full_assignment(&p, 33);
    let copy = copy_individual(&ind);
    assert_eq!(all_jobs(&copy), all_jobs(&ind));
    assert_eq!(copy.unassigned, ind.unassigned);
    assert_eq!(copy.routes.len(), ind.routes.len());
    let f = Fitness { unassigned: copy.unassigned.len(), cost: total_cost(&copy, &p) };
    let g = Fitness { unassigned: ind.unassigned.len(), cost: total_cost(&ind, &p) };
    assert!(f.le(&g) && g.le(&f));
}

#[test]
fn total_cost_sums_route_legs() {
    let p = line_problem(4, 2, 4);
    let ind = Individual { routes: vec![vec![0, 1, 3], vec![2]], unassigned: Vec::new() };
    // legs 0->1 and 1->3 cost 1 + 2; the singleton route costs nothing
    assert_eq!(total_cost(&ind, &p), 3);
}

#[test]
fn malformed_problems_are_rejected() {
    // no routes
    assert!(Problem::new(2, 0, 1, vec![matrix_from(vec![vec![0, 1], vec![1, 0]])]).is_err());
    // no cost profile
    assert!(Problem::new(2, 1, 1, Vec::new()).is_err());
    // a ragged cost matrix
    assert!(Problem::new(2, 1, 1, vec![matrix_from(vec![vec![0, 1]])]).is_err());
    // an entry above the cost bound
    assert!(
        Problem::new(2, 1, 1, vec![matrix_from(vec![vec![0, u64::MAX], vec![1, 0]])]).is_err()
    );
}

#[test]
fn worst_job_removal_count_is_exact() {
    let p = line_problem(8, 2, 8);
    // 8 assigned, skip 2: round(0.5*8)=4 clamped to 3, 6 available -> 3 removed
    let mut ind = full_assignment(&p, 40);
    let mut rng = Rng::new(41);
    WorstJobRemoval::new(2, RemovalLimit::new(1, 3, 500)).run(&mut rng, &p, &mut ind);
    assert_eq!(ind.unassigned.len(), 3);
    // skipping more than is assigned removes nothing
    let mut ind2 = full_assignment(&p, 42);
    WorstJobRemoval::new(10, RemovalLimit::new(1, 3, 500)).run(&mut rng, &p, &mut ind2);
    assert_eq!(ind2.unassigned.len(), 0);
}
