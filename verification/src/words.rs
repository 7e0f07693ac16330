//! Lists of words: looking one up, counting it, dropping repetitions.

use crate::chars::{byte_len, views};
use vstd::prelude::*;

verus! {

/// Whether a word takes at least `min` bytes.
pub open spec fn is_long(min: nat) -> spec_fn(Seq<char>) -> bool {
    |w: Seq<char>| byte_len(w) >= min
}

/// The words of a list without repetitions: each at the place where it first
/// occurs.
pub open spec fn distinct(words: Seq<Seq<char>>) -> Seq<Seq<char>>
    decreases words.len(),
{
    if words.len() == 0 {
        Seq::empty()
    } else {
        let before = distinct(words.drop_last());
        if before.contains(words.last()) {
            before
        } else {
            before.push(words.last())
        }
    }
}

/// The place of `word` in `list`, if it occurs there.
pub fn position(list: &Vec<String>, word: &String) -> (r: Option<usize>)
    ensures
        match r {
            Some(i) => i < list.len() && list@[i as int]@ == word@ && forall|j: int|
                0 <= j < i ==> list@[j]@ != word@,
            None => !views(list@).contains(word@),
        },
{
    let mut i: usize = 0;
    while i < list.len()
        invariant
            i <= list.len(),
            forall|j: int| 0 <= j < i ==> list@[j]@ != word@,
        decreases list.len() - i,
    {
        if list[i] == *word {
            return Some(i);
        }
        i += 1;
    }
    assert forall|j: int| 0 <= j < views(list@).len() implies views(list@)[j] != word@ by {}
    None
}

/// The distinct words of a list are the words of the list.
pub proof fn lemma_distinct_holds(words: Seq<Seq<char>>, w: Seq<char>)
    ensures
        distinct(words).contains(w) <==> words.contains(w),
    decreases words.len(),
{
    if words.len() > 0 {
        let before = words.drop_last();
        let d = distinct(before);
        let all = distinct(words);
        lemma_distinct_holds(before, w);
        if words.contains(w) {
            let i = choose|i: int| 0 <= i < words.len() && words[i] == w;
            if i < words.len() - 1 {
                assert(before[i] == w);
                assert(before.contains(w));
                assert(d.contains(w));
                let j = choose|j: int| 0 <= j < d.len() && d[j] == w;
                assert(all[j] == w);
            } else if d.contains(w) {
                assert(all == d);
            } else {
                assert(all[d.len() as int] == w);
            }
            assert(all.contains(w));
        }
        if all.contains(w) {
            let j = choose|j: int| 0 <= j < all.len() && all[j] == w;
            if j < d.len() {
                assert(d[j] == w);
                assert(d.contains(w));
                assert(before.contains(w));
                let i = choose|i: int| 0 <= i < before.len() && before[i] == w;
                assert(words[i] == w);
            } else {
                assert(words[words.len() - 1] == w);
            }
            assert(words.contains(w));
        }
    }
}

/// No word stands twice among the distinct words of a list.
pub proof fn lemma_distinct(words: Seq<Seq<char>>)
    ensures
        distinct(words).no_duplicates(),
    decreases words.len(),
{
    if words.len() > 0 {
        lemma_distinct(words.drop_last());
    }
}

/// Whether a word is `t`.
pub open spec fn same_as(t: Seq<char>) -> spec_fn(Seq<char>) -> bool {
    |w: Seq<char>| w == t
}

/// How often `t` occurs in `words`.
pub open spec fn occurrences(words: Seq<Seq<char>>, t: Seq<char>) -> nat {
    words.filter(same_as(t)).len()
}

/// How often `word` occurs in `words`.
pub fn count_occurrences(words: &Vec<String>, word: &String) -> (n: usize)
    ensures
        n == occurrences(views(words@), word@),
{
    let ghost all = views(words@);
    let ghost pred = same_as(word@);
    let mut n: usize = 0;
    let mut i: usize = 0;
    proof {
        reveal(Seq::filter);
        assert(all.take(0) =~= Seq::<Seq<char>>::empty());
    }
    while i < words.len()
        invariant
            i <= words.len(),
            all == views(words@),
            pred == same_as(word@),
            n == all.take(i as int).filter(pred).len(),
            n <= i,
        decreases words.len() - i,
    {
        proof {
            assert(all.take(i + 1) =~= all.take(i as int).push(all[i as int]));
            all.take(i as int).lemma_filter_push(all[i as int], pred);
        }
        if words[i] == *word {
            n += 1;
        }
        i += 1;
    }
    assert(all.take(words@.len() as int) == all);
    n
}

/// The words of a list without repetitions, each at its first place.
pub fn distinct_words(words: &Vec<String>) -> (d: Vec<String>)
    ensures
        views(d@) == distinct(views(words@)),
{
    let ghost all = views(words@);
    let mut d: Vec<String> = Vec::new();
    let mut j: usize = 0;
    proof {
        assert(all.take(0) =~= Seq::<Seq<char>>::empty());
        assert(views(d@) =~= Seq::<Seq<char>>::empty());
    }
    while j < words.len()
        invariant
            j <= words.len(),
            all == views(words@),
            views(d@) == distinct(all.take(j as int)),
        decreases words.len() - j,
    {
        proof {
            assert(all.take(j + 1).drop_last() =~= all.take(j as int));
            assert(all.take(j + 1).last() == all[j as int]);
        }
        match position(&d, &words[j]) {
            Some(at) => {
                assert(views(d@)[at as int] == all[j as int]);
            },
            None => {
                let ghost before = views(d@);
                d.push(words[j].clone());
                assert(views(d@) =~= before.push(all[j as int]));
            },
        }
        j += 1;
    }
    assert(all.take(words@.len() as int) == all);
    d
}

} // verus!
