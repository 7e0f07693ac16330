use kondo::intelligent::{extract_features, generate_group_names, FileInput};
use kondo::naming::{
    extract_common_words, find_common_prefix, generate_name_from_files, words_of_matches,
};

fn strings(items: &[&str]) -> Vec<String> {
    items.iter().map(|s| s.to_string()).collect()
}

#[test]
fn common_prefix_of_invoices_is_invoice() {
    let files = strings(&["invoice-2023-01.pdf", "invoice-2023-02.pdf", "invoice-final.pdf"]);
    assert_eq!(generate_name_from_files(&files), "Invoice");
}

#[test]
fn common_prefix_of_stems() {
    assert_eq!(
        find_common_prefix(&strings(&["invoice-2023-01", "invoice-2023-02", "invoice-final"])),
        "invoice-"
    );
    assert_eq!(find_common_prefix(&strings(&["abc", "abd", "ab"])), "ab");
    assert_eq!(find_common_prefix(&strings(&["abc"])), "abc");
    assert_eq!(find_common_prefix(&strings(&["abc", "xbc"])), "");
    assert_eq!(find_common_prefix(&strings(&["", "abc"])), "");
    assert_eq!(find_common_prefix(&Vec::new()), "");
}

#[test]
fn no_files_are_named_group() {
    assert_eq!(generate_name_from_files(&Vec::new()), "Group");
}

#[test]
fn short_prefix_falls_back_to_the_most_frequent_word() {
    let files = strings(&["ab_report_x.txt", "cd_report_y.txt", "ef_summary_z.txt"]);
    assert_eq!(generate_name_from_files(&files), "Report");
}

#[test]
fn first_word_wins_a_tie() {
    let files = strings(&["1_alpha_beta.txt", "2_beta_alpha.txt"]);
    assert_eq!(extract_common_words(&strings(&["1_alpha_beta", "2_beta_alpha"])), strings(&["alpha"]));
    assert_eq!(generate_name_from_files(&files), "Alpha");
}

#[test]
fn names_without_words_have_no_common_word() {
    assert_eq!(extract_common_words(&strings(&["12", "ab-cd", ""])), Vec::<String>::new());
    assert_eq!(extract_common_words(&Vec::new()), Vec::<String>::new());
}

#[test]
fn words_are_lower_cased_and_at_least_three_bytes() {
    assert_eq!(
        words_of_matches(Some(strings(&["Alpha", "ab", "BETA"]))),
        strings(&["alpha", "beta"])
    );
    assert_eq!(words_of_matches(None), Vec::<String>::new());
}

#[test]
fn nothing_shared_falls_back_to_the_extension() {
    assert_eq!(generate_name_from_files(&strings(&["1.jpg", "2.png"])), "JPG_Files");
    assert_eq!(generate_name_from_files(&strings(&["1", "2.png"])), "Mixed_Files");
}

#[test]
fn prefix_is_trimmed_of_trailing_separators() {
    assert_eq!(generate_name_from_files(&strings(&["img_001.jpg", "img_002.jpg"])), "Img_00");
    assert_eq!(generate_name_from_files(&strings(&["scan--a.pdf", "scan--b.pdf"])), "Scan");
    assert_eq!(generate_name_from_files(&strings(&["---a", "---b"])), "");
}

#[test]
fn prefix_of_one_file_is_its_stem() {
    assert_eq!(generate_name_from_files(&strings(&["Holiday.JPG"])), "Holiday");
}

#[test]
fn naming_is_reproducible() {
    let files = strings(&["x1_gamma_delta.txt", "y2_delta_gamma.txt", "z3_delta.txt"]);
    let first = generate_name_from_files(&files);
    assert_eq!(first, "Delta");
    for _ in 0..20 {
        assert_eq!(generate_name_from_files(&files), first);
    }
}

#[test]
fn features_follow_the_files() {
    let files = vec![
        FileInput { name: "notes.txt".to_string(), content: Some("budget plan".to_string()) },
        FileInput { name: "photo.jpg".to_string(), content: None },
        FileInput { name: "memo.txt".to_string(), content: Some("budget".to_string()) },
    ];
    let features = extract_features(&files);
    assert_eq!(features.len(), 3);
    assert_eq!(features[0].name, "notes.txt");
    assert!(features[0].is_text);
    assert!(!features[1].is_text);
    assert!(features[1].content_vector.is_none());
    assert_eq!(features[1].filename_vector.len(), 29);
    let first = features[0].content_vector.as_ref().unwrap();
    assert_eq!(first.len(), 2);
    assert_eq!((first[0].frequency.num, first[0].frequency.den), (1, 2));
    assert_eq!((first[0].rarity.num, first[0].rarity.den), (2, 2));
    assert_eq!((first[1].rarity.num, first[1].rarity.den), (2, 1));
    let third = features[2].content_vector.as_ref().unwrap();
    assert_eq!((third[0].frequency.num, third[0].frequency.den), (1, 1));
    assert_eq!((third[1].frequency.num, third[1].frequency.den), (0, 1));
}

#[test]
fn features_without_any_text() {
    let files = vec![
        FileInput { name: "a.jpg".to_string(), content: None },
        FileInput { name: "b.jpg".to_string(), content: None },
    ];
    let features = extract_features(&files);
    assert!(features.iter().all(|f| f.content_vector.is_none() && !f.is_text));
    assert!(extract_features(&Vec::new()).is_empty());
}

#[test]
fn groups_are_named_after_their_files() {
    let files = vec![
        FileInput { name: "budget-2023.txt".to_string(), content: None },
        FileInput { name: "holiday.jpg".to_string(), content: None },
        FileInput { name: "budget-2024.txt".to_string(), content: None },
    ];
    let features = extract_features(&files);
    let groups = generate_group_names(vec![vec![0, 2], vec![1]], &features);
    assert_eq!(groups.len(), 2);
    assert_eq!(groups[0].files, strings(&["budget-2023.txt", "budget-2024.txt"]));
    assert_eq!(groups[0].suggested_name, "Budget-202");
    assert_eq!(groups[1].files, strings(&["holiday.jpg"]));
    assert_eq!(groups[1].suggested_name, "Holiday");
}

#[test]
fn most_frequent_of_given_words() {
    assert_eq!(
        kondo::naming::most_frequent_word(&strings(&["x", "y", "y", "x", "z"])),
        strings(&["x"])
    );
    assert_eq!(kondo::naming::most_frequent_word(&strings(&["x", "y", "y"])), strings(&["y"]));
    assert_eq!(kondo::naming::most_frequent_word(&Vec::new()), Vec::<String>::new());
}
