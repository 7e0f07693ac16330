use kondo::categorise::{
    categorise_file, category_for_extension, create_extension_map, should_skip_file, summarize,
    FolderCount,
};
use kondo::filename::{
    create_pattern_rules, fallback_category, find_matching_pattern, place_by_filename,
    sort_by_priority, PatternRule, PatternType, Placement,
};
use kondo::mover::{handle_naming_conflict, sanitize_dirname, NamingError};
use kondo::ranking::rank_descending;
use kondo::session::{after_analysis, after_move, controls, on_key, Command, Key, Screen};

fn strings(items: &[&str]) -> Vec<String> {
    items.iter().map(|s| s.to_string()).collect()
}

#[test]
fn test_extension_mapping() {
    let ext_map = create_extension_map();

    assert_eq!(category_for_extension(&ext_map, "jpg"), "images");
    assert_eq!(category_for_extension(&ext_map, "mp4"), "videos");
    assert_eq!(category_for_extension(&ext_map, "pdf"), "documents");
    assert_eq!(category_for_extension(&ext_map, "rs"), "code");
}

#[test]
fn test_should_skip_system_files() {
    assert!(should_skip_file(".DS_Store"));
    assert!(should_skip_file("Thumbs.db"));
    assert!(should_skip_file(".gitignore"));
    assert!(!should_skip_file("document.pdf"));
    assert!(!should_skip_file("image.jpg"));
}

#[test]
fn test_handle_naming_conflict() {
    // a file that will cause a conflict
    let mut taken = strings(&["test.txt"]);

    let result = handle_naming_conflict("test.txt", &taken).unwrap();
    assert_eq!(result, "test_1.txt");

    // with the conflicting file in place as well
    taken.push(result);
    let result2 = handle_naming_conflict("test.txt", &taken).unwrap();
    assert_eq!(result2, "test_2.txt");
}

#[test]
fn free_name_is_kept() {
    assert_eq!(handle_naming_conflict("a.txt", &Vec::new()), Ok("a.txt".to_string()));
    assert_eq!(handle_naming_conflict("a.txt", &strings(&["b.txt"])), Ok("a.txt".to_string()));
}

#[test]
fn collisions_are_numbered() {
    assert_eq!(handle_naming_conflict("a.txt", &strings(&["a.txt"])), Ok("a_1.txt".to_string()));
    assert_eq!(
        handle_naming_conflict("a.txt", &strings(&["a.txt", "a_1.txt"])),
        Ok("a_2.txt".to_string())
    );
    assert_eq!(
        handle_naming_conflict("a.txt", &strings(&["a_2.txt", "a.txt", "a_1.txt"])),
        Ok("a_3.txt".to_string())
    );
    assert_eq!(
        handle_naming_conflict("a.txt", &strings(&["a.txt", "a_2.txt"])),
        Ok("a_1.txt".to_string())
    );
}

#[test]
fn numbered_names_keep_stem_and_extension() {
    assert_eq!(handle_naming_conflict("notes", &strings(&["notes"])), Ok("notes_1".to_string()));
    assert_eq!(
        handle_naming_conflict("a.tar.gz", &strings(&["a.tar.gz"])),
        Ok("a.tar_1.gz".to_string())
    );
    assert_eq!(
        handle_naming_conflict(".profile", &strings(&[".profile"])),
        Ok(".profile_1".to_string())
    );
    assert_eq!(handle_naming_conflict("a.", &strings(&["a."])), Ok("a_1.".to_string()));
}

#[test]
fn numbers_run_to_999() {
    let mut taken = strings(&["a.txt"]);
    for i in 1..999 {
        taken.push(format!("a_{}.txt", i));
    }
    assert_eq!(handle_naming_conflict("a.txt", &taken), Ok("a_999.txt".to_string()));
    taken.push("a_999.txt".to_string());
    let error = handle_naming_conflict("a.txt", &taken);
    assert_eq!(error, Err(NamingError::TooManyConflicts));
    assert_eq!(
        NamingError::TooManyConflicts.message(),
        "Could not find available filename after 999 attempts"
    );
}

#[test]
fn numbers_are_written_in_decimal() {
    let mut taken = strings(&["f"]);
    for i in 1..=120 {
        taken.push(format!("f_{}", i));
    }
    assert_eq!(handle_naming_conflict("f", &taken[..10].to_vec()), Ok("f_10".to_string()));
    assert_eq!(handle_naming_conflict("f", &taken[..100].to_vec()), Ok("f_100".to_string()));
    assert_eq!(handle_naming_conflict("f", &taken), Ok("f_121".to_string()));
}

#[test]
fn folder_names_are_made_safe() {
    assert_eq!(sanitize_dirname("Invoice"), "Invoice");
    assert_eq!(sanitize_dirname("My Files!"), "My_Files");
    assert_eq!(sanitize_dirname("__a b__"), "a_b");
    assert_eq!(sanitize_dirname("  "), "");
    assert_eq!(sanitize_dirname(""), "");
    assert_eq!(sanitize_dirname("a/b\\c"), "a_b_c");
    assert_eq!(sanitize_dirname("JPG_Files"), "JPG_Files");
    assert_eq!(sanitize_dirname("-x-"), "-x-");
    assert_eq!(sanitize_dirname("._x_."), "x");
}

#[test]
fn folder_names_hold_only_plain_letters_and_digits() {
    assert_eq!(sanitize_dirname("Café"), "Caf");
    assert_eq!(sanitize_dirname("über-uns"), "ber-uns");
    assert_eq!(sanitize_dirname("日本"), "");
}

#[test]
fn extensions_outside_the_table_are_extras() {
    let table = create_extension_map();
    assert_eq!(category_for_extension(&table, "xyz"), "extras");
    assert_eq!(category_for_extension(&table, "no_extension"), "extras");
    assert_eq!(category_for_extension(&table, "JPG"), "extras");
    assert_eq!(category_for_extension(&table, "deb"), "archives");
    assert_eq!(category_for_extension(&table, "exe"), "executables");
    assert_eq!(category_for_extension(&table, "csv"), "spreadsheets");
    assert_eq!(category_for_extension(&table, "key"), "presentations");
    assert_eq!(category_for_extension(&table, "mp3"), "audio");
    assert_eq!(category_for_extension(&table, "db"), "data");
}

#[test]
fn extension_table_has_ten_categories() {
    let table = create_extension_map();
    let names: Vec<&str> = table.iter().map(|c| c.name.as_str()).collect();
    assert_eq!(
        names,
        vec![
            "images",
            "videos",
            "audio",
            "documents",
            "spreadsheets",
            "presentations",
            "archives",
            "code",
            "data",
            "executables"
        ]
    );
    assert_eq!(table[0].extensions.len(), 11);
    assert_eq!(table[7].extensions.len(), 20);
    assert_eq!(table[9].extensions, strings(&["exe", "msi", "app", "deb", "rpm", "dmg", "pkg", "appimage"]));
}

#[test]
fn files_are_categorised_by_lower_cased_extension() {
    let table = create_extension_map();
    assert_eq!(categorise_file(&table, "Photo.JPG"), Some("images".to_string()));
    assert_eq!(categorise_file(&table, "README"), Some("extras".to_string()));
    assert_eq!(categorise_file(&table, "Thumbs.db"), None);
    assert_eq!(categorise_file(&table, "data.db"), Some("data".to_string()));
}

#[test]
fn summary_lists_the_fullest_folder_first() {
    let summary = summarize(&strings(&["images", "code", "images", "data", "code", "images"]));
    assert_eq!(
        summary,
        vec![
            FolderCount { folder: "images".to_string(), files: 3 },
            FolderCount { folder: "code".to_string(), files: 2 },
            FolderCount { folder: "data".to_string(), files: 1 },
        ]
    );
    assert_eq!(summarize(&Vec::new()), Vec::new());
    let tie = summarize(&strings(&["b", "a", "a", "b"]));
    assert_eq!(tie[0].folder, "b");
    assert_eq!(tie[1].folder, "a");
}

#[test]
fn ranking_is_stable() {
    assert_eq!(rank_descending(&vec![1, 3, 2, 3, 1]), vec![1, 3, 2, 0, 4]);
    assert_eq!(rank_descending(&vec![]), Vec::<usize>::new());
    assert_eq!(rank_descending(&vec![5, 5, 5]), vec![0, 1, 2]);
    assert_eq!(rank_descending(&vec![1, 2, 3]), vec![2, 1, 0]);
}

#[test]
fn default_rules_are_fifteen() {
    let rules = create_pattern_rules();
    assert_eq!(rules.len(), 15);
    let priorities: Vec<u8> = rules.iter().map(|r| r.priority).collect();
    assert_eq!(priorities, vec![100, 100, 90, 80, 85, 75, 85, 75, 80, 70, 80, 60, 60, 30, 10]);
    assert!(matches!(&rules[0].pattern_type, PatternType::Prefix(p) if p == "screenshot"));
    assert!(matches!(&rules[12].pattern_type, PatternType::Contains(p) if p == "_copy"));
    assert!(matches!(&rules[13].pattern_type, PatternType::DatePattern));
    assert!(matches!(&rules[14].pattern_type, PatternType::BaseName));
    assert_eq!(rules[13].target_folder, "dated_files");
}

#[test]
fn rules_are_sorted_by_priority_and_keep_their_order_among_equals() {
    let sorted = sort_by_priority(&create_pattern_rules());
    let priorities: Vec<u8> = sorted.iter().map(|r| r.priority).collect();
    assert_eq!(priorities, vec![100, 100, 90, 85, 85, 80, 80, 80, 75, 75, 70, 60, 60, 30, 10]);
    let folders: Vec<&str> = sorted.iter().map(|r| r.target_folder.as_str()).collect();
    assert_eq!(
        folders,
        vec![
            "screenshots",
            "screenshots",
            "screenshots",
            "invoices",
            "receipts",
            "downloads",
            "backups",
            "drafts",
            "invoices",
            "receipts",
            "backups",
            "copies",
            "copies",
            "dated_files",
            "grouped"
        ]
    );
    assert!(matches!(&sorted[1].pattern_type, PatternType::Prefix(p) if p == "screen shot"));
}

#[test]
fn rules_are_tried_in_the_order_given() {
    let rules = vec![
        PatternRule {
            pattern_type: PatternType::Contains("BACK".to_string()),
            target_folder: "first".to_string(),
            priority: 1,
        },
        PatternRule {
            pattern_type: PatternType::Prefix("my".to_string()),
            target_folder: "second".to_string(),
            priority: 9,
        },
    ];
    assert_eq!(find_matching_pattern("My_Backup.zip", &rules), Some("first".to_string()));
    assert_eq!(find_matching_pattern("my_file.zip", &rules), Some("second".to_string()));
    assert_eq!(find_matching_pattern("file.zip", &rules), None);
    let sorted = sort_by_priority(&rules);
    assert_eq!(find_matching_pattern("My_Backup.zip", &sorted), Some("second".to_string()));
}

#[test]
fn base_name_rule_gives_the_base_name() {
    let rules = create_pattern_rules();
    assert_eq!(find_matching_pattern("holiday-rome.jpg", &rules), Some("holiday".to_string()));
    assert_eq!(find_matching_pattern("x.jpg", &rules), None);
}

#[test]
fn placement_falls_back_to_the_extension() {
    let rules = sort_by_priority(&create_pattern_rules());
    assert_eq!(
        place_by_filename("screenshot 1.png", &rules),
        Some(Placement::Pattern("screenshots".to_string()))
    );
    assert_eq!(place_by_filename("x.PNG", &rules), Some(Placement::Fallback("images".to_string())));
    assert_eq!(
        place_by_filename("x", &rules),
        Some(Placement::Fallback("uncategorized".to_string()))
    );
    assert_eq!(place_by_filename(".DS_Store", &rules), None);
}

#[test]
fn fallback_categories() {
    assert_eq!(fallback_category("jpeg"), "images");
    assert_eq!(fallback_category("webm"), "videos");
    assert_eq!(fallback_category("m4a"), "audio");
    assert_eq!(fallback_category("odt"), "documents");
    assert_eq!(fallback_category("7z"), "archives");
    assert_eq!(fallback_category("rs"), "uncategorized");
    assert_eq!(fallback_category("no_extension"), "uncategorized");
}

#[test]
fn keys_of_a_session() {
    let screens = [Screen::Ready, Screen::Analyzing, Screen::Complete, Screen::Moving, Screen::Moved];
    for screen in screens {
        assert_eq!(on_key(screen, Key::Char('q')), Command::Quit);
        assert_eq!(on_key(screen, Key::Esc), Command::Quit);
        assert_eq!(on_key(screen, Key::Other), Command::Ignore);
        assert_eq!(on_key(screen, Key::Char('x')), Command::Ignore);
        let start = if screen == Screen::Ready { Command::Analyze } else { Command::Ignore };
        assert_eq!(on_key(screen, Key::Char('s')), start);
        let moving = if screen == Screen::Complete { Command::MoveFiles } else { Command::Ignore };
        assert_eq!(on_key(screen, Key::Char('m')), moving);
        let preview = if screen == Screen::Complete { Command::Preview } else { Command::Ignore };
        assert_eq!(on_key(screen, Key::Char('d')), preview);
    }
    assert_eq!(after_analysis(true), Screen::Complete);
    assert_eq!(after_analysis(false), Screen::Ready);
    assert_eq!(after_move(true), Screen::Moved);
    assert_eq!(after_move(false), Screen::Complete);
    assert_eq!(controls(Screen::Ready), " 's' Start Analysis | 'q' Quit");
    assert_eq!(controls(Screen::Complete), " 'm' Move Files | 'd' Dry Run | 'q' Quit");
    assert_eq!(controls(Screen::Moved), " 'q' Quit");
}

#[test]
fn dry_runs_are_reported_as_such() {
    assert_eq!(
        kondo::mover::creation_line("/tmp/x/Invoice", false),
        "Created directory: /tmp/x/Invoice"
    );
    assert_eq!(
        kondo::mover::creation_line("/tmp/x/Invoice", true),
        "[DRY RUN] Would create: /tmp/x/Invoice"
    );
    assert_eq!(kondo::mover::move_line("a", "b/a", false), "  Moved: a → b/a");
    assert_eq!(kondo::mover::move_line("a", "b/a", true), "  [DRY RUN] Would move: a → b/a");
}
