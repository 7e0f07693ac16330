use kondo::features::{extract_filename_features, is_text_file, Fraction};
use kondo::names::{extension_of, file_stem_of};

fn frac(num: usize, den: usize) -> Fraction {
    Fraction { num, den }
}

#[test]
fn filename_vector_has_29_entries() {
    assert_eq!(extract_filename_features("anything.txt").len(), 29);
    assert_eq!(extract_filename_features("").len(), 29);
}

#[test]
fn filename_vector_of_mixed_name() {
    // stem "report-2023": letters r, e, p, o, r, t; 11 bytes; 4 digits; 1 special
    let v = extract_filename_features("Report-2023.pdf");
    let letter = |c: char| (c as u8 - b'a') as usize;
    assert_eq!(v[letter('r')], frac(2, 6));
    assert_eq!(v[letter('e')], frac(1, 6));
    assert_eq!(v[letter('p')], frac(1, 6));
    assert_eq!(v[letter('o')], frac(1, 6));
    assert_eq!(v[letter('t')], frac(1, 6));
    assert_eq!(v[letter('a')], frac(0, 6));
    assert_eq!(v[26], frac(11, 50));
    assert_eq!(v[27], frac(4, 11));
    assert_eq!(v[28], frac(1, 11));
}

#[test]
fn letter_shares_sum_to_one_with_a_letter() {
    for name in ["Report-2023.pdf", "a", "zzz.tar.gz", "IMG_0001.JPG", "x1"] {
        let v = extract_filename_features(name);
        let den = v[0].den;
        assert!(den > 0);
        let mut sum = 0;
        for entry in &v[..26] {
            assert_eq!(entry.den, den);
            sum += entry.num;
        }
        assert_eq!(sum, den, "{}", name);
    }
}

#[test]
fn letter_shares_are_zero_without_a_letter() {
    for name in ["2023.txt", "", "--__--", "12-34"] {
        let v = extract_filename_features(name);
        for entry in &v[..26] {
            assert_eq!(*entry, frac(0, 1), "{}", name);
        }
    }
}

#[test]
fn empty_stem_has_unit_denominators() {
    let v = extract_filename_features("");
    assert_eq!(v[26], frac(0, 50));
    assert_eq!(v[27], frac(0, 1));
    assert_eq!(v[28], frac(0, 1));
}

#[test]
fn length_entry_is_capped_at_fifty() {
    let long = "a".repeat(80);
    let v = extract_filename_features(&long);
    assert_eq!(v[26], frac(50, 50));
    assert_eq!(v[0], frac(80, 80));
    let exact = "b".repeat(50);
    assert_eq!(extract_filename_features(&exact)[26], frac(50, 50));
    let below = "c".repeat(49);
    assert_eq!(extract_filename_features(&below)[26], frac(49, 50));
}

#[test]
fn length_is_counted_in_bytes() {
    // "é" takes two bytes and is a letter, but not one of a to z
    let v = extract_filename_features("é1.txt");
    assert_eq!(v[26], frac(3, 50));
    assert_eq!(v[27], frac(1, 3));
    assert_eq!(v[28], frac(0, 3));
    assert_eq!(v[4], frac(0, 1));
}

#[test]
fn stem_is_lower_cased_before_counting() {
    let v = extract_filename_features("ABBA.mp3");
    assert_eq!(v[0], frac(2, 4));
    assert_eq!(v[1], frac(2, 4));
}

#[test]
fn stem_and_extension() {
    assert_eq!(file_stem_of("report.pdf"), "report");
    assert_eq!(extension_of("report.pdf"), Some("pdf".to_string()));
    assert_eq!(file_stem_of("archive.tar.gz"), "archive.tar");
    assert_eq!(extension_of("archive.tar.gz"), Some("gz".to_string()));
    assert_eq!(file_stem_of(".profile"), ".profile");
    assert_eq!(extension_of(".profile"), None);
    assert_eq!(file_stem_of("Makefile"), "Makefile");
    assert_eq!(extension_of("Makefile"), None);
    assert_eq!(file_stem_of(".."), "..");
    assert_eq!(extension_of(".."), None);
    assert_eq!(file_stem_of("a."), "a");
    assert_eq!(extension_of("a."), Some("".to_string()));
    assert_eq!(file_stem_of(""), "");
    assert_eq!(extension_of(""), None);
}

#[test]
fn stem_and_extension_agree_with_std_path() {
    for name in ["report.pdf", "archive.tar.gz", ".profile", "Makefile", "..", "a.", "...", ".a.b"] {
        let path = std::path::Path::new(name);
        let stem = path.file_stem().map(|s| s.to_string_lossy().to_string()).unwrap_or_default();
        let ext = path.extension().map(|s| s.to_string_lossy().to_string());
        if name != ".." {
            assert_eq!(file_stem_of(name), stem, "{}", name);
        }
        assert_eq!(extension_of(name), ext, "{}", name);
    }
}

#[test]
fn text_files_by_extension() {
    assert!(is_text_file("notes.txt"));
    assert!(is_text_file("NOTES.TXT"));
    assert!(is_text_file("main.rs"));
    assert!(is_text_file("data.csv"));
    assert!(is_text_file("script.ps1"));
    assert!(!is_text_file("photo.jpg"));
    assert!(!is_text_file("Makefile"));
    assert!(!is_text_file(".txt"));
    assert!(!is_text_file("archive.txt.zip"));
}

#[test]
fn shape_of_a_lower_case_stem() {
    let v = kondo::features::shape_of_stem("ab-1");
    assert_eq!(v[0], frac(1, 2));
    assert_eq!(v[1], frac(1, 2));
    assert_eq!(v[26], frac(4, 50));
    assert_eq!(v[27], frac(1, 4));
    assert_eq!(v[28], frac(1, 4));
    // an upper-case letter is no letter a to z
    let upper = kondo::features::shape_of_stem("AB");
    assert_eq!(upper[0], frac(0, 1));
}
