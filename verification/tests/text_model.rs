use kondo::features::Fraction;
use kondo::tfidf::{build_tfidf_model, compute_tfidf_vector, keep_long, preprocess_text};

fn frac(num: usize, den: usize) -> Fraction {
    Fraction { num, den }
}

fn strings(items: &[&str]) -> Vec<String> {
    items.iter().map(|s| s.to_string()).collect()
}

#[test]
fn tokens_are_lowercase_runs_of_two_or_more() {
    assert_eq!(
        preprocess_text("Hello, World! a I x2 42 foo_bar"),
        strings(&["hello", "world", "x2", "42", "foo", "bar"])
    );
    assert_eq!(preprocess_text(""), Vec::<String>::new());
    assert_eq!(preprocess_text("a b c - !"), Vec::<String>::new());
}

#[test]
fn tokens_differ_from_the_text() {
    assert_eq!(preprocess_text("Budget"), strings(&["budget"]));
}

#[test]
fn keep_long_filters_by_bytes() {
    assert_eq!(keep_long(Some(strings(&["a", "ab", "abc", ""])), 2), strings(&["ab", "abc"]));
    assert_eq!(keep_long(None, 2), Vec::<String>::new());
    assert_eq!(keep_long(Some(strings(&["a", "é"])), 2), strings(&["é"]));
}

#[test]
fn vocabulary_is_in_order_of_first_occurrence() {
    let model = build_tfidf_model(&strings(&["budget report budget", "plan budget"]));
    assert_eq!(*model.vocabulary(), strings(&["budget", "report", "plan"]));
}

#[test]
fn rarity_is_documents_over_document_frequency() {
    let model = build_tfidf_model(&strings(&["budget report budget", "plan budget", "plan"]));
    assert_eq!(*model.vocabulary(), strings(&["budget", "report", "plan"]));
    assert_eq!(*model.rarity(), vec![frac(3, 2), frac(3, 1), frac(3, 2)]);
}

#[test]
fn rarity_is_at_least_one_and_least_for_a_token_of_every_document() {
    let docs = strings(&["budget alpha", "budget beta", "budget alpha gamma"]);
    let model = build_tfidf_model(&docs);
    let vocabulary = model.vocabulary();
    let rarity = model.rarity();
    assert_eq!(vocabulary.len(), rarity.len());
    for (word, r) in vocabulary.iter().zip(rarity.iter()) {
        assert!(0 < r.den && r.den <= r.num);
        assert_eq!(r.num, docs.len());
        assert_eq!(r.den == r.num, word == "budget");
    }
}

#[test]
fn empty_corpus_gives_empty_model() {
    let model = build_tfidf_model(&Vec::new());
    assert!(model.vocabulary().is_empty());
    assert!(model.rarity().is_empty());
}

#[test]
fn content_vector_counts_over_all_tokens() {
    let model = build_tfidf_model(&strings(&["budget report", "plan budget"]));
    let v = compute_tfidf_vector("Budget budget plan unknown", &model);
    assert_eq!(v.len(), 3);
    assert_eq!(v[0].frequency, frac(2, 4));
    assert_eq!(v[1].frequency, frac(0, 4));
    assert_eq!(v[2].frequency, frac(1, 4));
    assert_eq!(v[0].rarity, frac(2, 2));
    assert_eq!(v[1].rarity, frac(2, 1));
    assert_eq!(v[2].rarity, frac(2, 1));
}

#[test]
fn content_vector_of_empty_document_is_zero() {
    let model = build_tfidf_model(&strings(&["budget report"]));
    let v = compute_tfidf_vector("", &model);
    assert_eq!(v.len(), 2);
    assert_eq!(v[0].frequency, frac(0, 1));
    assert_eq!(v[1].frequency, frac(0, 1));
}

#[test]
fn tokens_outside_the_vocabulary_count_for_nothing() {
    let model = build_tfidf_model(&strings(&["alpha beta"]));
    let v = compute_tfidf_vector("gamma delta", &model);
    assert_eq!(v[0].frequency, frac(0, 2));
    assert_eq!(v[1].frequency, frac(0, 2));
}

#[test]
fn model_from_token_lists() {
    let lists = vec![strings(&["b", "a", "b"]), strings(&["c"]), strings(&["a", "c"])];
    let model = kondo::tfidf::model_from_tokens(&lists);
    assert_eq!(*model.vocabulary(), strings(&["b", "a", "c"]));
    assert_eq!(*model.rarity(), vec![frac(3, 1), frac(3, 2), frac(3, 2)]);
    let v = kondo::tfidf::weigh_tokens(&strings(&["a", "a", "z"]), &model);
    assert_eq!(v[0].frequency, frac(0, 3));
    assert_eq!(v[1].frequency, frac(2, 3));
    assert_eq!(v[2].frequency, frac(0, 3));
}
