use kondo::config::IntelligentConfig;
use kondo::kmeans::{
    determine_k, nearest_centroid, perform_clustering, start_clustering, Action, Event, KMeans, Phase,
};

fn config(max_clusters: usize) -> IntelligentConfig {
    IntelligentConfig { max_clusters, ..IntelligentConfig::default() }
}

#[test]
fn default_config_values() {
    let c = IntelligentConfig::default();
    assert_eq!(c.max_lines_to_read, 100);
    assert_eq!(c.min_cluster_size, 2);
    assert_eq!(c.max_clusters, 20);
    assert_eq!(c.max_iterations, 100);
    assert_eq!(kondo::config::default_max_lines_to_read(), 100);
    assert_eq!(kondo::config::default_min_cluster_size(), 2);
    assert_eq!(kondo::config::default_max_clusters(), 20);
    assert_eq!(kondo::config::default_max_iterations(), 100);
}

#[test]
fn number_of_clusters() {
    assert_eq!(determine_k(0, &config(20)), 0);
    assert_eq!(determine_k(1, &config(20)), 1);
    assert_eq!(determine_k(2, &config(20)), 2);
    assert_eq!(determine_k(3, &config(20)), 2);
    assert_eq!(determine_k(8, &config(20)), 2);
    assert_eq!(determine_k(9, &config(20)), 3);
    assert_eq!(determine_k(12, &config(20)), 3);
    assert_eq!(determine_k(18, &config(20)), 3);
    assert_eq!(determine_k(19, &config(20)), 4);
    assert_eq!(determine_k(100, &config(20)), 8);
    assert_eq!(determine_k(1000, &config(20)), 20);
    assert_eq!(determine_k(1000, &config(50)), 23);
    assert_eq!(determine_k(100, &config(0)), 0);
    assert_eq!(determine_k(100, &config(1)), 1);
}

#[test]
fn number_of_clusters_agrees_with_floating_point() {
    for n in 0usize..5000 {
        let expected = ((n as f64 / 2.0).sqrt().ceil() as usize).max(2).min(1000).min(n);
        assert_eq!(determine_k(n, &config(1000)), expected, "{}", n);
    }
}

#[test]
fn nearest_is_first_smallest() {
    assert_eq!(nearest_centroid(&vec![5, 3, 3, 9]), 1);
    assert_eq!(nearest_centroid(&vec![0, 0]), 0);
    assert_eq!(nearest_centroid(&vec![7]), 0);
    assert_eq!(nearest_centroid(&vec![9, 8, 7]), 2);
}

#[test]
fn nearest_ignores_keys_at_the_top() {
    assert_eq!(nearest_centroid(&vec![u64::MAX, u64::MAX]), 0);
    assert_eq!(nearest_centroid(&vec![u64::MAX, u64::MAX - 1]), 1);
    assert_eq!(nearest_centroid(&vec![]), 0);
}

#[test]
fn engine_runs_to_convergence() {
    let mut engine = KMeans::new(4, 2, 10);
    assert_eq!(engine.phase(), Phase::Uninitialized);
    assert_eq!(engine.pending(), Action::Initialize);
    assert_eq!(*engine.assignments(), vec![0, 0, 0, 0]);
    assert_eq!(engine.step(Event::Initialized), Action::Assign);
    let distances = vec![vec![0, 9], vec![9, 0], vec![1, 8], vec![8, 1]];
    assert_eq!(engine.step(Event::Distances(distances.clone())), Action::Update);
    assert_eq!(*engine.assignments(), vec![0, 1, 0, 1]);
    assert_eq!(engine.step(Event::Updated), Action::Assign);
    assert_eq!(engine.step(Event::Distances(distances)), Action::Stop);
    assert_eq!(engine.phase(), Phase::Converged);
    assert_eq!(*engine.assignments(), vec![0, 1, 0, 1]);
}

#[test]
fn assignment_is_idempotent_at_convergence() {
    let distances = vec![vec![4, 2, 7], vec![1, 1, 1], vec![9, 9, 3], vec![5, 6, 5], vec![0, 3, 3]];
    let mut engine = KMeans::new(5, 3, 10);
    engine.step(Event::Initialized);
    engine.step(Event::Distances(distances.clone()));
    engine.step(Event::Updated);
    assert_eq!(engine.step(Event::Distances(distances.clone())), Action::Stop);
    assert_eq!(engine.phase(), Phase::Converged);
    let converged = engine.assignments().clone();
    let again: Vec<usize> = distances.iter().map(nearest_centroid).collect();
    assert_eq!(again, converged);
    assert_eq!(converged, vec![1, 0, 2, 0, 0]);
}

#[test]
fn engine_converges_at_once_when_all_files_stay_in_cluster_zero() {
    let mut engine = KMeans::new(3, 2, 10);
    engine.step(Event::Initialized);
    let action = engine.step(Event::Distances(vec![vec![1, 2], vec![0, 0], vec![3, 4]]));
    assert_eq!(action, Action::Stop);
    assert_eq!(engine.phase(), Phase::Converged);
}

#[test]
fn engine_stops_when_rounds_are_used_up() {
    let mut engine = KMeans::new(2, 2, 1);
    assert_eq!(engine.step(Event::Initialized), Action::Assign);
    assert_eq!(engine.step(Event::Distances(vec![vec![0, 5], vec![5, 0]])), Action::Update);
    assert_eq!(engine.step(Event::Updated), Action::Stop);
    assert_eq!(engine.phase(), Phase::Exhausted);
    assert_eq!(*engine.assignments(), vec![0, 1]);
}

#[test]
fn engine_without_rounds_keeps_everything_in_cluster_zero() {
    let mut engine = KMeans::new(3, 2, 0);
    assert_eq!(engine.step(Event::Initialized), Action::Stop);
    assert_eq!(engine.phase(), Phase::Exhausted);
    assert_eq!(*engine.assignments(), vec![0, 0, 0]);
}

#[test]
fn engine_ignores_events_that_do_not_fit() {
    let mut engine = KMeans::new(2, 2, 5);
    assert_eq!(engine.step(Event::Updated), Action::Initialize);
    assert_eq!(engine.step(Event::Distances(vec![vec![5, 0], vec![5, 0]])), Action::Initialize);
    assert_eq!(engine.step(Event::Initialized), Action::Assign);
    assert_eq!(engine.step(Event::Initialized), Action::Assign);
    assert_eq!(engine.step(Event::Updated), Action::Assign);
    // wrong number of rows, then a row of the wrong length
    assert_eq!(engine.step(Event::Distances(vec![vec![5, 0]])), Action::Assign);
    assert_eq!(engine.step(Event::Distances(vec![vec![5, 0], vec![5]])), Action::Assign);
    assert_eq!(*engine.assignments(), vec![0, 0]);
    assert_eq!(engine.step(Event::Distances(vec![vec![5, 0], vec![5, 0]])), Action::Update);
    assert_eq!(*engine.assignments(), vec![1, 1]);
}

#[test]
fn clusters_are_capped_by_the_number_of_files() {
    let engine = KMeans::new(2, 5, 5);
    assert_eq!(engine.clusters(), 2);
    assert_eq!(engine.points(), 2);
}

#[test]
fn small_clusters_are_dropped_with_their_files() {
    let mut engine = KMeans::new(5, 3, 10);
    engine.step(Event::Initialized);
    engine.step(Event::Distances(vec![
        vec![0, 9, 9],
        vec![9, 0, 9],
        vec![1, 9, 9],
        vec![9, 9, 0],
        vec![2, 9, 9],
    ]));
    assert_eq!(*engine.assignments(), vec![0, 1, 0, 2, 0]);
    assert_eq!(perform_clustering(&engine, 2), vec![vec![0, 2, 4]]);
    assert_eq!(perform_clustering(&engine, 1), vec![vec![0, 2, 4], vec![1], vec![3]]);
    assert_eq!(perform_clustering(&engine, 4), Vec::<Vec<usize>>::new());
}

#[test]
fn kept_clusters_hold_each_file_at_most_once() {
    let mut engine = KMeans::new(6, 3, 10);
    engine.step(Event::Initialized);
    engine.step(Event::Distances(vec![
        vec![3, 1, 2],
        vec![1, 2, 3],
        vec![3, 2, 1],
        vec![1, 1, 1],
        vec![2, 1, 1],
        vec![9, 9, 8],
    ]));
    let kept = perform_clustering(&engine, 2);
    let mut seen = vec![false; 6];
    for group in &kept {
        assert!(group.len() >= 2);
        for &file in group {
            assert!(file < 6);
            assert!(!seen[file]);
            seen[file] = true;
        }
    }
    assert_eq!(kept, vec![vec![1, 3], vec![0, 4], vec![2, 5]]);
}

#[test]
fn empty_clusters_stay_when_no_size_is_asked() {
    let mut engine = KMeans::new(2, 2, 10);
    engine.step(Event::Initialized);
    assert_eq!(perform_clustering(&engine, 0), vec![vec![0, 1], vec![]]);
}

#[test]
fn no_files_give_no_clusters() {
    let engine = KMeans::new(0, 3, 10);
    assert_eq!(perform_clustering(&engine, 0), Vec::<Vec<usize>>::new());
}

#[test]
fn no_cluster_allowed_gives_one_unfiltered_cluster() {
    let mut engine = KMeans::new(3, 0, 10);
    assert!(engine.assignments().is_empty());
    assert_eq!(engine.step(Event::Initialized), Action::Stop);
    assert_eq!(perform_clustering(&engine, 5), vec![vec![0, 1, 2]]);
}

#[test]
fn clustering_starts_with_the_configured_limits() {
    let engine = start_clustering(12, &config(20));
    assert_eq!(engine.points(), 12);
    assert_eq!(engine.clusters(), 3);
    assert_eq!(engine.phase(), Phase::Uninitialized);
    let none = start_clustering(12, &config(0));
    assert_eq!(none.clusters(), 0);
    assert_eq!(perform_clustering(&none, 2), vec![(0..12).collect::<Vec<usize>>()]);
}
