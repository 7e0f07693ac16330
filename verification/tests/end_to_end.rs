use kondo::config::IntelligentConfig;
use kondo::features::Fraction;
use kondo::intelligent::{
    collect_groups, combine_feature_vectors, content_dimensions, extract_features,
    group_statistics, ClusterResult, FileFeatures, FileGroup, FileInput,
};
use kondo::kmeans::{start_clustering, Action, Event, Phase};
use kondo::lines::first_lines;
use kondo::names::is_hidden;
use kondo::tfidf::TermWeight;

fn value(f: Fraction) -> f64 {
    f.num as f64 / f.den as f64
}

fn weight(w: &TermWeight) -> f64 {
    value(w.frequency) * (value(w.rarity).ln() + 1.0)
}

fn combined(features: &FileFeatures, dimensions: usize, name_weight: f64, content_weight: f64) -> Vec<f64> {
    let mut v: Vec<f64> = features.filename_vector.iter().map(|f| value(*f) * name_weight).collect();
    for w in combine_feature_vectors(features, dimensions) {
        v.push(weight(&w) * content_weight);
    }
    v
}

fn distance(a: &[f64], b: &[f64]) -> f64 {
    a.iter().zip(b).map(|(x, y)| (x - y).powi(2)).sum::<f64>().sqrt()
}

fn key(d: f64) -> u64 {
    if d.is_nan() || d >= f64::MAX {
        u64::MAX
    } else if d == 0.0 {
        0
    } else {
        d.to_bits()
    }
}

fn run(files: &[FileInput], config: &IntelligentConfig) -> (ClusterResult, Phase, Vec<usize>) {
    let files = files.to_vec();
    let features = extract_features(&files);
    let dimensions = content_dimensions(&features);
    let vectors: Vec<Vec<f64>> =
        features.iter().map(|f| combined(f, dimensions, 0.3, 0.7)).collect();
    let mut engine = start_clustering(vectors.len(), config);
    let mut centroids: Vec<Vec<f64>> = Vec::new();
    let mut action = engine.pending();
    loop {
        match action {
            Action::Initialize => {
                centroids = vectors.iter().take(engine.clusters()).cloned().collect();
                action = engine.step(Event::Initialized);
            }
            Action::Assign => {
                let keys: Vec<Vec<u64>> = vectors
                    .iter()
                    .map(|v| centroids.iter().map(|c| key(distance(v, c))).collect())
                    .collect();
                action = engine.step(Event::Distances(keys));
            }
            Action::Update => {
                let assignments = engine.assignments();
                for (c, centroid) in centroids.iter_mut().enumerate() {
                    let members: Vec<&Vec<f64>> = vectors
                        .iter()
                        .zip(assignments.iter())
                        .filter(|(_, &a)| a == c)
                        .map(|(v, _)| v)
                        .collect();
                    if !members.is_empty() {
                        for (j, slot) in centroid.iter_mut().enumerate() {
                            *slot = members.iter().map(|m| m[j]).sum::<f64>() / members.len() as f64;
                        }
                    }
                }
                action = engine.step(Event::Updated);
            }
            Action::Stop => break,
        }
    }
    // one more assignment pass over the final centroids, for the check below
    let again: Vec<usize> = vectors
        .iter()
        .map(|v| {
            let keys: Vec<u64> = centroids.iter().map(|c| key(distance(v, c))).collect();
            kondo::kmeans::nearest_centroid(&keys)
        })
        .collect();
    if engine.phase() == Phase::Converged {
        assert_eq!(&again, engine.assignments());
    }
    let result = collect_groups(&engine, &features, config.min_cluster_size).unwrap();
    (result, engine.phase(), engine.assignments().clone())
}

fn budget_and_pictures() -> Vec<FileInput> {
    let texts = ["budget_q1", "budget_q2", "budget_q3", "budget_q4", "budget_plan", "budget_old"];
    let pictures = ["IMG_4471", "zebra", "sunset-x", "k9", "holiday2", "qwerty"];
    let mut files = Vec::new();
    for i in 0..6 {
        files.push(FileInput {
            name: format!("{}.txt", texts[i]),
            content: Some("budget budget budget budget\nbudget budget".to_string()),
        });
        files.push(FileInput { name: format!("{}.jpg", pictures[i]), content: None });
    }
    files
}

fn config() -> IntelligentConfig {
    IntelligentConfig { min_cluster_size: 2, ..IntelligentConfig::default() }
}

#[test]
fn text_files_and_pictures_fall_into_different_groups() {
    let files = budget_and_pictures();
    let (result, phase, assignments) = run(&files, &config());
    assert_eq!(phase, Phase::Converged);
    assert_eq!(assignments.len(), 12);
    assert!(result.groups.len() >= 2, "{:?}", result);
    let text_group = result
        .groups
        .iter()
        .find(|g| g.files.iter().filter(|f| f.ends_with(".txt")).count() * 2 > g.files.len());
    assert!(text_group.is_some(), "{:?}", result);
    for group in &result.groups {
        assert!(group.files.len() >= 2);
        let texts = group.files.iter().filter(|f| f.ends_with(".txt")).count();
        assert!(texts == 0 || texts == group.files.len(), "{:?}", group);
    }
    assert_eq!(text_group.unwrap().suggested_name, "Budget");
}

#[test]
fn groups_hold_files_of_the_input_once() {
    let files = budget_and_pictures();
    let (result, _, _) = run(&files, &config());
    let mut seen: Vec<&String> = Vec::new();
    for group in &result.groups {
        for file in &group.files {
            assert!(files.iter().any(|f| &f.name == file));
            assert!(!seen.contains(&file));
            seen.push(file);
        }
    }
}

#[test]
fn two_runs_give_the_same_result() {
    let files = budget_and_pictures();
    let (first, phase, assignments) = run(&files, &config());
    for _ in 0..5 {
        let (again, phase_again, assignments_again) = run(&files, &config());
        assert_eq!(phase_again, phase);
        assert_eq!(assignments_again, assignments);
        assert_eq!(again.groups.len(), first.groups.len());
        for (a, b) in again.groups.iter().zip(first.groups.iter()) {
            assert_eq!(a.files, b.files);
            assert_eq!(a.suggested_name, b.suggested_name);
        }
    }
}

#[test]
fn no_files_give_no_groups() {
    let (result, phase, assignments) = run(&[], &config());
    assert!(result.groups.is_empty());
    assert_eq!(phase, Phase::Exhausted);
    assert!(assignments.is_empty());
}

#[test]
fn fewer_files_than_the_minimum_give_no_groups() {
    let files = vec![FileInput { name: "only.txt".to_string(), content: Some("alone".to_string()) }];
    let (result, _, _) = run(&files, &config());
    assert!(result.groups.is_empty());
}

#[test]
fn identical_files_end_in_one_group() {
    let files: Vec<FileInput> =
        (0..4).map(|_| FileInput { name: "same.jpg".to_string(), content: None }).collect();
    let (result, phase, assignments) = run(&files, &config());
    assert_eq!(phase, Phase::Converged);
    assert_eq!(assignments, vec![0, 0, 0, 0]);
    assert_eq!(result.groups.len(), 1);
    assert_eq!(result.groups[0].files.len(), 4);
    assert_eq!(result.groups[0].suggested_name, "Same");
}

#[test]
fn no_cluster_allowed_puts_all_files_in_one_group() {
    let files = budget_and_pictures();
    let none = IntelligentConfig { max_clusters: 0, min_cluster_size: 50, ..IntelligentConfig::default() };
    let (result, _, _) = run(&files, &none);
    assert_eq!(result.groups.len(), 1);
    assert_eq!(result.groups[0].files.len(), 12);
}

#[test]
fn features_of_other_files_give_no_result() {
    let files = budget_and_pictures();
    let features = extract_features(&files);
    let engine = start_clustering(3, &config());
    assert!(collect_groups(&engine, &features, 2).is_none());
}

#[test]
fn files_without_content_are_padded_to_the_vocabulary() {
    let files = vec![
        FileInput { name: "a.txt".to_string(), content: Some("alpha beta gamma".to_string()) },
        FileInput { name: "b.jpg".to_string(), content: None },
    ];
    let features = extract_features(&files);
    assert_eq!(content_dimensions(&features), 3);
    let text = combine_feature_vectors(&features[0], 3);
    assert_eq!(text.len(), 3);
    assert_eq!((text[0].frequency.num, text[0].frequency.den), (1, 3));
    let padded = combine_feature_vectors(&features[1], 3);
    assert_eq!(padded.len(), 3);
    for w in &padded {
        assert_eq!((w.frequency.num, w.frequency.den), (0, 1));
        assert_eq!((w.rarity.num, w.rarity.den), (1, 1));
        assert_eq!(weight(w), 0.0);
    }
    let pictures = extract_features(&files[1..].to_vec());
    assert_eq!(content_dimensions(&pictures), 0);
    assert!(combine_feature_vectors(&pictures[0], 0).is_empty());
}

#[test]
fn weights_are_at_least_the_frequency() {
    let files = budget_and_pictures();
    let features = extract_features(&files);
    for f in &features {
        if let Some(v) = &f.content_vector {
            for w in v {
                assert!(value(w.rarity).ln() + 1.0 >= 1.0);
                assert!(weight(w) >= value(w.frequency));
            }
        }
    }
}

#[test]
fn lines_are_read_as_the_standard_library_splits_them() {
    let texts = [
        "",
        "one",
        "one\n",
        "one\ntwo",
        "one\r\ntwo\r\n",
        "one\rtwo\nthree",
        "\n\nx\n",
        "a\r",
        "a\r\n\r\n",
        "\r\n",
        "a\n\rb",
        "x\n\n",
        "tab\tand ünïcode\nline",
    ];
    for text in texts {
        for max in 0..5 {
            let expected: Vec<&str> = text.lines().take(max).collect();
            assert_eq!(first_lines(text, max), expected.join("\n"), "{:?} {}", text, max);
        }
    }
}

#[test]
fn only_the_first_lines_are_kept() {
    assert_eq!(first_lines("a\nb\nc\nd", 2), "a\nb");
    assert_eq!(first_lines("a\nb\nc\nd", 0), "");
    assert_eq!(first_lines("a\nb", 100), "a\nb");
    assert_eq!(first_lines("a\r\nb\r\n", 100), "a\nb");
}

#[test]
fn hidden_files_start_with_a_dot() {
    assert!(is_hidden(".git"));
    assert!(is_hidden("."));
    assert!(!is_hidden("a.b"));
    assert!(!is_hidden(""));
}

#[test]
fn statistics_of_a_result() {
    let group = |n: usize, name: &str| FileGroup {
        files: (0..n).map(|i| format!("{}{}", name, i)).collect(),
        suggested_name: name.to_string(),
    };
    let result = ClusterResult { groups: vec![group(2, "a"), group(5, "b"), group(2, "c")] };
    let stats = group_statistics(&result);
    assert_eq!(stats.total_files, 9);
    assert_eq!(stats.groups, 3);
    assert_eq!(stats.average_size, 3);
    assert_eq!(stats.by_size, vec![1, 0, 2]);
    let empty = group_statistics(&ClusterResult { groups: Vec::new() });
    assert_eq!(empty.total_files, 0);
    assert_eq!(empty.groups, 0);
    assert_eq!(empty.average_size, 0);
    assert!(empty.by_size.is_empty());
}
