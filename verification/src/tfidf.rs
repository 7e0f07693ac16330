//! The text model: tokens, vocabulary, and how rare each token is.
//!
//! Weights are kept exact. The weight of a token in a document is its term
//! frequency times its inverse document frequency, which is the natural
//! logarithm of its rarity plus one; the frequency and the rarity are fractions
//! here, and the logarithm is left to the caller.

use crate::chars::{byte_len, lowercase, views};
use crate::words::{
    count_occurrences, distinct, is_long, lemma_distinct, lemma_distinct_holds, occurrences, position,
};
use crate::features::{at_least_one, Fraction};
use crate::matching::{find_all, found_views, regex_find_all};
use vstd::prelude::*;

verus! {

/// The pattern of a token: a run of letters `a` to `z`, `A` to `Z` and digits.
pub open spec fn token_pattern() -> Seq<char> {
    "[a-zA-Z0-9]+"@
}

/// The tokens among the matches of a search: those of at least two bytes, or
/// none where the search could not be made.
pub open spec fn tokens_among(found: Option<Seq<Seq<char>>>) -> Seq<Seq<char>> {
    match found {
        Some(matches) => matches.filter(is_long(2)),
        None => Seq::empty(),
    }
}

/// The tokens of a text: the matches of the token pattern in its lower-case
/// form that take at least two bytes.
pub open spec fn tokens(text: Seq<char>) -> Seq<Seq<char>> {
    tokens_among(regex_find_all(token_pattern(), lowercase(text)))
}

/// Keeps the matches of at least `min` bytes, in order.
pub fn keep_long(found: Option<Vec<String>>, min: usize) -> (kept: Vec<String>)
    ensures
        views(kept@) == (match found_views(found) {
            Some(matches) => matches.filter(is_long(min as nat)),
            None => Seq::empty(),
        }),
{
    let mut kept: Vec<String> = Vec::new();
    match found {
        Some(matches) => {
            let ghost all = views(matches@);
            let ghost long = is_long(min as nat);
            proof {
                reveal(Seq::filter);
                assert(all.take(0) =~= Seq::<Seq<char>>::empty());
                assert(views(kept@) =~= Seq::<Seq<char>>::empty());
            }
            let mut i: usize = 0;
            while i < matches.len()
                invariant
                    i <= matches.len(),
                    all == views(matches@),
                    long == is_long(min as nat),
                    views(kept@) == all.take(i as int).filter(long),
                decreases matches.len() - i,
            {
                proof {
                    assert(all.take(i + 1) =~= all.take(i as int).push(all[i as int]));
                    all.take(i as int).lemma_filter_push(all[i as int], long);
                }
                if matches[i].as_str().as_bytes().len() >= min {
                    let ghost before = views(kept@);
                    kept.push(matches[i].clone());
                    assert(views(kept@) =~= before.push(all[i as int]));
                }
                i += 1;
            }
            assert(all.take(matches@.len() as int) == all);
        },
        None => {
            assert(views(kept@) =~= Seq::<Seq<char>>::empty());
        },
    }
    kept
}

/// The tokens of a text. Each takes at least two bytes.
pub fn preprocess_text(text: &str) -> (words: Vec<String>)
    ensures
        views(words@) == tokens(text@),
        forall|i: int| 0 <= i < words@.len() ==> byte_len(#[trigger] words@[i]@) >= 2,
{
    let lowered = text.to_lowercase();
    let words = keep_long(find_all("[a-zA-Z0-9]+", lowered.as_str()), 2);
    proof {
        assert forall|i: int| 0 <= i < words@.len() implies byte_len(#[trigger] words@[i]@)
            >= 2 by {
            assert(views(words@).len() == words@.len());
            assert(views(words@)[i] == words@[i]@);
            assert(views(words@) == tokens(text@));
            match regex_find_all(token_pattern(), lowercase(text@)) {
                Some(matches) => {
                    let kept = matches.filter(is_long(2));
                    assert(views(words@) == kept);
                    matches.lemma_filter_pred(is_long(2), i);
                    assert(is_long(2)(kept[i]));
                },
                None => {},
            }
        }
    }
    words
}

/// The documents of a corpus, each as the list of its tokens.
pub open spec fn tokenized(texts: Seq<Seq<char>>) -> Seq<Seq<Seq<char>>> {
    Seq::new(texts.len(), |i: int| tokens(texts[i]))
}

/// The views of a list of token lists.
pub open spec fn token_lists(documents: Seq<Vec<String>>) -> Seq<Seq<Seq<char>>> {
    Seq::new(documents.len(), |i: int| views(documents[i]@))
}

/// The tokens of all documents, one document after the other.
pub open spec fn all_tokens(docs: Seq<Seq<Seq<char>>>) -> Seq<Seq<char>>
    decreases docs.len(),
{
    if docs.len() == 0 {
        Seq::empty()
    } else {
        all_tokens(docs.drop_last()) + docs.last()
    }
}

/// The vocabulary of a corpus: its distinct tokens, in the order in which they
/// first occur.
pub open spec fn vocabulary(docs: Seq<Seq<Seq<char>>>) -> Seq<Seq<char>> {
    distinct(all_tokens(docs))
}

/// Whether a document holds the token `t`.
pub open spec fn holding(t: Seq<char>) -> spec_fn(Seq<Seq<char>>) -> bool {
    |d: Seq<Seq<char>>| d.contains(t)
}

/// The number of documents that hold the token `t`.
pub open spec fn document_frequency(docs: Seq<Seq<Seq<char>>>, t: Seq<char>) -> nat {
    docs.filter(holding(t)).len()
}

/// How rare a token is: the number of documents over the number of those that
/// hold it, and 1 where none does. The inverse document frequency of the token
/// is the natural logarithm of this, plus one.
pub open spec fn rarity_of(documents: nat, frequency: nat) -> Fraction {
    if frequency > 0 {
        Fraction { num: documents as usize, den: frequency as usize }
    } else {
        Fraction { num: 1, den: 1 }
    }
}

/// The mathematical value of a text model.
pub struct ModelView {
    /// The distinct tokens.
    pub vocabulary: Seq<Seq<char>>,
    /// The rarity of each token of the vocabulary, by position.
    pub rarity: Seq<Fraction>,
}

/// The model of a corpus, given as the token lists of its documents.
pub open spec fn model_of(docs: Seq<Seq<Seq<char>>>) -> ModelView {
    ModelView {
        vocabulary: vocabulary(docs),
        rarity: Seq::new(
            vocabulary(docs).len(),
            |j: int| rarity_of(docs.len(), document_frequency(docs, vocabulary(docs)[j])),
        ),
    }
}

/// The vocabulary of a corpus and the rarity of each of its tokens. It is built
/// once and only read afterwards.
#[derive(Debug)]
pub struct TfIdfModel {
    vocabulary: Vec<String>,
    rarity: Vec<Fraction>,
}

impl View for TfIdfModel {
    type V = ModelView;

    closed spec fn view(&self) -> ModelView {
        ModelView { vocabulary: views(self.vocabulary@), rarity: self.rarity@ }
    }
}

/// What holds of every model: no token stands twice in the vocabulary, and each
/// has its rarity.
pub open spec fn valid_model(m: ModelView) -> bool {
    m.vocabulary.no_duplicates() && m.rarity.len() == m.vocabulary.len()
}

proof fn lemma_all_tokens(docs: Seq<Seq<Seq<char>>>, t: Seq<char>)
    ensures
        all_tokens(docs).contains(t) <==> exists|i: int|
            0 <= i < docs.len() && (#[trigger] docs[i]).contains(t),
    decreases docs.len(),
{
    if docs.len() > 0 {
        let before = docs.drop_last();
        lemma_all_tokens(before, t);
        let a = all_tokens(before);
        let b = docs.last();
        if all_tokens(docs).contains(t) {
            let j = choose|j: int| 0 <= j < (a + b).len() && (a + b)[j] == t;
            if j < a.len() {
                assert(a[j] == t);
                assert(a.contains(t));
                let i = choose|i: int| 0 <= i < before.len() && (#[trigger] before[i]).contains(t);
                assert(docs[i] == before[i]);
            } else {
                assert(b[j - a.len()] == t);
                assert(docs[docs.len() - 1].contains(t));
            }
        }
        if exists|i: int| 0 <= i < docs.len() && (#[trigger] docs[i]).contains(t) {
            let i = choose|i: int| 0 <= i < docs.len() && (#[trigger] docs[i]).contains(t);
            if i < docs.len() - 1 {
                assert(before[i] == docs[i]);
                assert(a.contains(t));
                let j = choose|j: int| 0 <= j < a.len() && a[j] == t;
                assert((a + b)[j] == t);
            } else {
                let j = choose|j: int| 0 <= j < b.len() && b[j] == t;
                assert((a + b)[a.len() + j] == t);
            }
        }
    }
}

proof fn lemma_filter_all<A>(s: Seq<A>, pred: spec_fn(A) -> bool)
    ensures
        s.filter(pred).len() <= s.len(),
        s.filter(pred).len() == s.len() <==> forall|i: int| 0 <= i < s.len() ==> pred(#[trigger] s[i]),
    decreases s.len(),
{
    reveal(Seq::filter);
    if s.len() > 0 {
        let before = s.drop_last();
        lemma_filter_all(before, pred);
        if s.filter(pred).len() == s.len() {
            assert forall|i: int| 0 <= i < s.len() implies pred(#[trigger] s[i]) by {
                if i < s.len() - 1 {
                    assert(before[i] == s[i]);
                }
            }
        }
        if forall|i: int| 0 <= i < s.len() ==> pred(#[trigger] s[i]) {
            assert forall|i: int| 0 <= i < before.len() implies pred(#[trigger] before[i]) by {
                assert(before[i] == s[i]);
            }
        }
    }
}

/// Whether no rarity of the model is below 1, and a rarity is 1, the least there
/// is, exactly for the tokens that every document holds.
pub open spec fn rarity_is_at_least_one(m: ModelView, docs: Seq<Seq<Seq<char>>>) -> bool {
    forall|j: int|
        0 <= j < m.vocabulary.len() ==> {
            let r = #[trigger] m.rarity[j];
            &&& 0 < r.den <= r.num
            &&& r.den == r.num <==> forall|i: int|
                0 <= i < docs.len() ==> (#[trigger] docs[i]).contains(m.vocabulary[j])
        }
}

/// No token is less rare than one that every document holds: each token of the
/// vocabulary occurs in at least one document and in at most all of them, so
/// its rarity is at least 1; and its rarity is exactly 1, the least there is,
/// if and only if every document holds it.
pub proof fn lemma_rarity_is_at_least_one(docs: Seq<Seq<Seq<char>>>, j: int)
    requires
        docs.len() <= usize::MAX,
        0 <= j < vocabulary(docs).len(),
    ensures
        ({
            let t = vocabulary(docs)[j];
            let r = model_of(docs).rarity[j];
            &&& 1 <= document_frequency(docs, t) <= docs.len()
            &&& r.num == docs.len() && r.den == document_frequency(docs, t)
            &&& 0 < r.den <= r.num
            &&& r.den == r.num <==> forall|i: int|
                0 <= i < docs.len() ==> (#[trigger] docs[i]).contains(t)
        }),
{
    let t = vocabulary(docs)[j];
    lemma_distinct_holds(all_tokens(docs), t);
    assert(vocabulary(docs).contains(t));
    lemma_all_tokens(docs, t);
    let i = choose|i: int| 0 <= i < docs.len() && (#[trigger] docs[i]).contains(t);
    docs.lemma_filter_contains(holding(t), i);
    lemma_filter_all(docs, holding(t));
}

fn zeros(n: usize) -> (v: Vec<usize>)
    ensures
        v@.len() == n,
        forall|j: int| 0 <= j < n ==> v@[j] == 0,
{
    let mut v: Vec<usize> = Vec::new();
    let mut k: usize = 0;
    while k < n
        invariant
            k <= n,
            v@.len() == k,
            forall|j: int| 0 <= j < k ==> v@[j] == 0,
        decreases n - k,
    {
        v.push(0);
        k += 1;
    }
    v
}

fn collect_vocabulary(documents: &Vec<Vec<String>>) -> (vocab: Vec<String>)
    ensures
        views(vocab@) == vocabulary(token_lists(documents@)),
{
    let ghost docs = token_lists(documents@);
    let mut vocab: Vec<String> = Vec::new();
    let mut i: usize = 0;
    proof {
        assert(docs.take(0) =~= Seq::<Seq<Seq<char>>>::empty());
        assert(views(vocab@) =~= Seq::<Seq<char>>::empty());
    }
    while i < documents.len()
        invariant
            i <= documents.len(),
            docs == token_lists(documents@),
            views(vocab@) == vocabulary(docs.take(i as int)),
        decreases documents.len() - i,
    {
        let words = &documents[i];
        let ghost base = all_tokens(docs.take(i as int));
        let ghost fresh = views(words@);
        let mut j: usize = 0;
        proof {
            assert(base + fresh.take(0) =~= base);
        }
        while j < words.len()
            invariant
                j <= words.len(),
                fresh == views(words@),
                views(vocab@) == distinct(base + fresh.take(j as int)),
            decreases words.len() - j,
        {
            proof {
                let so_far = base + fresh.take(j as int);
                let next = base + fresh.take(j + 1);
                assert(next =~= so_far.push(fresh[j as int]));
                assert(next.drop_last() =~= so_far);
            }
            match position(&vocab, &words[j]) {
                Some(at) => {
                    assert(views(vocab@)[at as int] == fresh[j as int]);
                },
                None => {
                    let ghost before = views(vocab@);
                    vocab.push(words[j].clone());
                    assert(views(vocab@) =~= before.push(fresh[j as int]));
                },
            }
            j += 1;
        }
        proof {
            assert(fresh.take(words@.len() as int) == fresh);
            assert(docs.take(i + 1).drop_last() =~= docs.take(i as int));
            assert(docs.take(i + 1).last() == docs[i as int]);
        }
        i += 1;
    }
    assert(docs.take(documents@.len() as int) == docs);
    vocab
}

fn count_documents(documents: &Vec<Vec<String>>, vocab: &Vec<String>) -> (counts: Vec<usize>)
    ensures
        counts@.len() == vocab@.len(),
        forall|j: int|
            0 <= j < vocab@.len() ==> counts@[j] == document_frequency(
                token_lists(documents@),
                #[trigger] vocab@[j]@,
            ),
{
    let ghost docs = token_lists(documents@);
    let mut counts = zeros(vocab.len());
    let mut i: usize = 0;
    proof {
        reveal(Seq::filter);
        assert(docs.take(0) =~= Seq::<Seq<Seq<char>>>::empty());
    }
    while i < documents.len()
        invariant
            i <= documents.len(),
            docs == token_lists(documents@),
            counts@.len() == vocab@.len(),
            forall|j: int|
                0 <= j < vocab@.len() ==> counts@[j] == document_frequency(
                    docs.take(i as int),
                    #[trigger] vocab@[j]@,
                ),
        decreases documents.len() - i,
    {
        let words = &documents[i];
        let mut j: usize = 0;
        while j < vocab.len()
            invariant
                j <= vocab.len(),
                i < documents.len(),
                docs == token_lists(documents@),
                views(words@) == docs[i as int],
                counts@.len() == vocab@.len(),
                forall|t: int|
                    0 <= t < j ==> counts@[t] == document_frequency(
                        docs.take(i + 1),
                        #[trigger] vocab@[t]@,
                    ),
                forall|t: int|
                    j <= t < vocab@.len() ==> counts@[t] == document_frequency(
                        docs.take(i as int),
                        #[trigger] vocab@[t]@,
                    ),
            decreases vocab.len() - j,
        {
            proof {
                let t = vocab@[j as int]@;
                assert(docs.take(i + 1) =~= docs.take(i as int).push(docs[i as int]));
                docs.take(i as int).lemma_filter_push(docs[i as int], holding(t));
                docs.take(i as int).lemma_filter_len(holding(t));
            }
            match position(words, &vocab[j]) {
                Some(at) => {
                    assert(views(words@)[at as int] == vocab@[j as int]@);
                    counts.set(j, counts[j] + 1);
                },
                None => {},
            }
            j += 1;
        }
        i += 1;
    }
    assert(docs.take(documents@.len() as int) == docs);
    counts
}

/// Builds the model of a corpus whose documents are given as their lists of
/// tokens: its vocabulary, and for each token how rare it is among the
/// documents.
pub fn model_from_tokens(documents: &Vec<Vec<String>>) -> (model: TfIdfModel)
    ensures
        model@ == model_of(token_lists(documents@)),
        valid_model(model@),
        rarity_is_at_least_one(model@, token_lists(documents@)),
{
    let ghost docs = token_lists(documents@);
    let vocabulary = collect_vocabulary(documents);
    let counts = count_documents(documents, &vocabulary);
    let mut rarity: Vec<Fraction> = Vec::new();
    let mut j: usize = 0;
    while j < vocabulary.len()
        invariant
            j <= vocabulary.len(),
            docs == token_lists(documents@),
            counts@.len() == vocabulary@.len(),
            forall|t: int|
                0 <= t < vocabulary@.len() ==> counts@[t] == document_frequency(
                    docs,
                    #[trigger] vocabulary@[t]@,
                ),
            rarity@.len() == j,
            forall|t: int|
                0 <= t < j ==> rarity@[t] == rarity_of(
                    docs.len(),
                    document_frequency(docs, #[trigger] vocabulary@[t]@),
                ),
        decreases vocabulary.len() - j,
    {
        if counts[j] > 0 {
            rarity.push(Fraction { num: documents.len(), den: counts[j] });
        } else {
            rarity.push(Fraction { num: 1, den: 1 });
        }
        j += 1;
    }
    proof {
        lemma_distinct(all_tokens(docs));
        assert(rarity@ =~= model_of(docs).rarity);
        let m = model_of(docs);
        assert(docs.len() == documents.len() <= usize::MAX);
        assert forall|j: int| 0 <= j < m.vocabulary.len() implies {
            let r = #[trigger] m.rarity[j];
            &&& 0 < r.den <= r.num
            &&& r.den == r.num <==> forall|i: int|
                0 <= i < docs.len() ==> (#[trigger] docs[i]).contains(m.vocabulary[j])
        } by {
            lemma_rarity_is_at_least_one(docs, j);
        }
    }
    TfIdfModel { vocabulary, rarity }
}

/// Builds the model of a corpus of texts: each text is split into its tokens,
/// of which the model is made.
pub fn build_tfidf_model(documents: &Vec<String>) -> (model: TfIdfModel)
    ensures
        model@ == model_of(tokenized(views(documents@))),
        valid_model(model@),
        rarity_is_at_least_one(model@, tokenized(views(documents@))),
{
    let mut lists: Vec<Vec<String>> = Vec::new();
    let mut i: usize = 0;
    while i < documents.len()
        invariant
            i <= documents.len(),
            lists@.len() == i,
            forall|j: int| 0 <= j < i ==> views((#[trigger] lists@[j])@) == tokens(documents@[j]@),
        decreases documents.len() - i,
    {
        lists.push(preprocess_text(documents[i].as_str()));
        i += 1;
    }
    assert(token_lists(lists@) =~= tokenized(views(documents@)));
    model_from_tokens(&lists)
}

impl TfIdfModel {
    #[verifier::type_invariant]
    spec fn well_formed(&self) -> bool {
        valid_model(self@)
    }

    /// The distinct tokens. Every model is valid.
    pub fn vocabulary(&self) -> (v: &Vec<String>)
        ensures
            views(v@) == self@.vocabulary,
            valid_model(self@),
    {
        proof {
            use_type_invariant(self);
        }
        &self.vocabulary
    }

    /// The rarity of each token of the vocabulary, by position.
    pub fn rarity(&self) -> (r: &Vec<Fraction>)
        ensures
            r@ == self@.rarity,
            valid_model(self@),
    {
        proof {
            use_type_invariant(self);
        }
        &self.rarity
    }
}

/// One entry of a document's content vector: the weight of one token of the
/// vocabulary in the document is `frequency` times the natural logarithm of
/// `rarity` plus one.
#[derive(Debug, Clone, Copy, PartialEq, Eq, Structural)]
pub struct TermWeight {
    /// How often the token occurs among the tokens of the document.
    pub frequency: Fraction,
    /// How rare the token is in the corpus of the model.
    pub rarity: Fraction,
}

/// The content vector of a document with these tokens: for each token of the
/// vocabulary its count over the number of tokens of the document, with its
/// rarity. A token that the vocabulary lacks adds to no count; a document
/// without tokens has frequency 0 throughout.
pub open spec fn content_vector(words: Seq<Seq<char>>, m: ModelView) -> Seq<TermWeight> {
    Seq::new(
        m.vocabulary.len(),
        |j: int|
            TermWeight {
                frequency: Fraction {
                    num: occurrences(words, m.vocabulary[j]) as usize,
                    den: at_least_one(words.len()) as usize,
                },
                rarity: m.rarity[j],
            },
    )
}

/// The content vector of a document with these tokens under a model.
pub fn weigh_tokens(words: &Vec<String>, model: &TfIdfModel) -> (v: Vec<TermWeight>)
    ensures
        v@ == content_vector(views(words@), model@),
{
    let vocabulary = model.vocabulary();
    let rarity = model.rarity();
    let total: usize = if words.len() == 0 {
        1
    } else {
        words.len()
    };
    let mut v: Vec<TermWeight> = Vec::new();
    let mut j: usize = 0;
    while j < vocabulary.len()
        invariant
            j <= vocabulary.len(),
            views(vocabulary@) == model@.vocabulary,
            rarity@ == model@.rarity,
            valid_model(model@),
            total == at_least_one(words@.len()),
            v@.len() == j,
            forall|t: int| 0 <= t < j ==> v@[t] == content_vector(views(words@), model@)[t],
        decreases vocabulary.len() - j,
    {
        assert(views(vocabulary@)[j as int] == vocabulary@[j as int]@);
        let count = count_occurrences(words, &vocabulary[j]);
        v.push(TermWeight { frequency: Fraction { num: count, den: total }, rarity: rarity[j] });
        j += 1;
    }
    assert(v@ =~= content_vector(views(words@), model@));
    v
}

/// The content vector of a text under a model.
pub fn compute_tfidf_vector(text: &str, model: &TfIdfModel) -> (v: Vec<TermWeight>)
    ensures
        v@ == content_vector(tokens(text@), model@),
{
    let words = preprocess_text(text);
    weigh_tokens(&words, model)
}

} // verus!
