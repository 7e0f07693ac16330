//! Names for groups of files.
//!
//! A group is named after what its files' names share: a common beginning,
//! else their most frequent word, else the extension of the first file.

use crate::chars::{
    byte_len, char_uppercase, is_lower_ascii, lowercase, rows, substring, to_chars,
    unicode_alphanumeric, uppercase, uppercase_of_char, views,
};
use crate::matching::{find_all, found_views, regex_find_all};
use crate::names::{extension, extension_of, file_stem, file_stem_of};
use crate::words::{count_occurrences, distinct, distinct_words, is_long, occurrences};
use vstd::prelude::*;
use vstd::string::StringExecFns;

verus! {

/// Whether every string has, at place `i`, the character that the first has
/// there.
pub open spec fn agree_at(strings: Seq<Seq<char>>, i: int) -> bool {
    forall|s: int| 0 <= s < strings.len() ==> i < (#[trigger] strings[s]).len() && strings[s][i]
        == strings[0][i]
}

/// Whether `n` is the length of the longest beginning that all strings share.
pub open spec fn is_common_len(strings: Seq<Seq<char>>, n: int) -> bool {
    &&& 0 <= n <= strings[0].len()
    &&& forall|i: int| 0 <= i < n ==> agree_at(strings, i)
    &&& n == strings[0].len() || !agree_at(strings, n)
}

/// The longest beginning that all strings share, character by character; empty
/// for no strings.
pub open spec fn common_prefix(strings: Seq<Seq<char>>) -> Seq<char> {
    if strings.len() == 0 {
        Seq::empty()
    } else {
        strings[0].take(choose|n: int| is_common_len(strings, n))
    }
}

/// Only one length is that of the longest shared beginning.
pub proof fn lemma_common_len_unique(strings: Seq<Seq<char>>, a: int, b: int)
    requires
        is_common_len(strings, a),
        is_common_len(strings, b),
    ensures
        a == b,
{
}

fn agree_at_exec(strings: &Vec<Vec<char>>, i: usize) -> (r: bool)
    requires
        strings.len() > 0,
        i < strings[0].len(),
    ensures
        r == agree_at(rows(strings@), i as int),
{
    let ghost all = rows(strings@);
    let c = strings[0][i];
    let mut s: usize = 0;
    while s < strings.len()
        invariant
            s <= strings.len(),
            strings.len() > 0,
            i < strings[0].len(),
            c == strings@[0]@[i as int],
            all == rows(strings@),
            forall|t: int| 0 <= t < s ==> i < (#[trigger] all[t]).len() && all[t][i as int] == c,
        decreases strings.len() - s,
    {
        assert(all[s as int] == strings@[s as int]@);
        if i >= strings[s].len() || strings[s][i] != c {
            assert(all[0] == strings@[0]@);
            return false;
        }
        s += 1;
    }
    assert(all[0] == strings@[0]@);
    true
}

/// The longest beginning that all strings share.
pub fn find_common_prefix(strings: &Vec<String>) -> (prefix: String)
    ensures
        prefix@ == common_prefix(views(strings@)),
{
    let mut chars: Vec<Vec<char>> = Vec::new();
    let mut i: usize = 0;
    while i < strings.len()
        invariant
            i <= strings.len(),
            chars@.len() == i,
            forall|j: int| 0 <= j < i ==> (#[trigger] chars@[j])@ == strings@[j]@,
        decreases strings.len() - i,
    {
        chars.push(to_chars(strings[i].as_str()));
        i += 1;
    }
    assert(rows(chars@) =~= views(strings@));
    shared_beginning(&chars)
}

fn shared_beginning(strings: &Vec<Vec<char>>) -> (prefix: String)
    ensures
        prefix@ == common_prefix(rows(strings@)),
{
    if strings.len() == 0 {
        return String::new();
    }
    let ghost all = rows(strings@);
    assert(all[0] == strings@[0]@);
    let mut n: usize = 0;
    while n < strings[0].len() && agree_at_exec(strings, n)
        invariant
            strings.len() > 0,
            n <= strings[0].len(),
            all == rows(strings@),
            forall|i: int| 0 <= i < n ==> agree_at(all, i),
        decreases strings[0].len() - n,
    {
        n += 1;
    }
    proof {
        assert(all[0] == strings@[0]@);
        assert(is_common_len(all, n as int));
        lemma_common_len_unique(all, n as int, choose|m: int| is_common_len(all, m));
        assert(strings@[0]@.subrange(0, n as int) == all[0].take(n as int));
    }
    substring(&strings[0], 0, n)
}

/// A string without the characters at its end that are neither letters nor
/// numbers.
pub open spec fn trim_end(s: Seq<char>) -> Seq<char>
    decreases s.len(),
{
    if s.len() > 0 && !unicode_alphanumeric(s.last()) {
        trim_end(s.drop_last())
    } else {
        s
    }
}

/// A string with its first character in upper case.
pub open spec fn capitalized(s: Seq<char>) -> Seq<char> {
    if s.len() == 0 {
        s
    } else {
        char_uppercase(s[0]) + s.skip(1)
    }
}

/// The upper-case form of one of the letters `a` to `z`.
pub open spec fn upper_ascii(c: char) -> char {
    ((c as u8) - 32) as char
}

/// A string with its first character in upper case, if that is one of `a` to `z`.
pub open spec fn capitalized_ascii(s: Seq<char>) -> Seq<char> {
    if s.len() > 0 && is_lower_ascii(s[0]) {
        seq![upper_ascii(s[0])] + s.skip(1)
    } else {
        s
    }
}

/// The pattern of a word in a file name: three or more letters.
pub open spec fn word_pattern() -> Seq<char> {
    "[a-zA-Z]{3,}"@
}

/// The lower-case forms of a list of strings.
pub open spec fn lowered(words: Seq<Seq<char>>) -> Seq<Seq<char>> {
    Seq::new(words.len(), |i: int| lowercase(words[i]))
}

/// The words among the matches of a search: their lower-case forms of at least
/// three bytes, or none where the search could not be made.
pub open spec fn words_among(found: Option<Seq<Seq<char>>>) -> Seq<Seq<char>> {
    match found {
        Some(matches) => lowered(matches).filter(is_long(3)),
        None => Seq::empty(),
    }
}

/// The words of a file name.
pub open spec fn name_words(name: Seq<char>) -> Seq<Seq<char>> {
    words_among(regex_find_all(word_pattern(), name))
}

/// The words of all file names, one name after the other.
pub open spec fn all_name_words(names: Seq<Seq<char>>) -> Seq<Seq<char>>
    decreases names.len(),
{
    if names.len() == 0 {
        Seq::empty()
    } else {
        all_name_words(names.drop_last()) + name_words(names.last())
    }
}

/// Whether word number `b` of the distinct words `d` leads: none occurs more
/// often in `words`, and none before it as often.
pub open spec fn is_leader(words: Seq<Seq<char>>, d: Seq<Seq<char>>, b: int) -> bool {
    &&& 0 <= b < d.len()
    &&& forall|j: int| 0 <= j < d.len() ==> occurrences(words, #[trigger] d[j]) <= occurrences(words, d[b])
    &&& forall|j: int| 0 <= j < b ==> occurrences(words, #[trigger] d[j]) < occurrences(words, d[b])
}

/// The most frequent word; among several, the one that occurs first. None for
/// no words.
pub open spec fn most_frequent(words: Seq<Seq<char>>) -> Option<Seq<char>> {
    let d = distinct(words);
    if d.len() == 0 {
        None
    } else {
        Some(d[choose|b: int| is_leader(words, d, b)])
    }
}

/// Only one word leads.
pub proof fn lemma_leader_unique(words: Seq<Seq<char>>, d: Seq<Seq<char>>, a: int, b: int)
    requires
        is_leader(words, d, a),
        is_leader(words, d, b),
    ensures
        a == b,
{
    if a < b {
        assert(occurrences(words, d[a]) < occurrences(words, d[b]));
        assert(occurrences(words, d[b]) <= occurrences(words, d[a]));
    } else if b < a {
        assert(occurrences(words, d[b]) < occurrences(words, d[a]));
        assert(occurrences(words, d[a]) <= occurrences(words, d[b]));
    }
}

/// The view of the list that holds the most frequent word, if there is one.
pub open spec fn one_or_none(w: Option<Seq<char>>) -> Seq<Seq<char>> {
    match w {
        Some(w) => seq![w],
        None => Seq::empty(),
    }
}

/// The lower-case forms of the matches that take at least three bytes.
pub fn words_of_matches(found: Option<Vec<String>>) -> (words: Vec<String>)
    ensures
        views(words@) == words_among(found_views(found)),
{
    let mut words: Vec<String> = Vec::new();
    match found {
        Some(matches) => {
            let ghost all = lowered(views(matches@));
            let ghost long = is_long(3);
            proof {
                reveal(Seq::filter);
                assert(all.take(0) =~= Seq::<Seq<char>>::empty());
                assert(views(words@) =~= Seq::<Seq<char>>::empty());
            }
            let mut i: usize = 0;
            while i < matches.len()
                invariant
                    i <= matches.len(),
                    all == lowered(views(matches@)),
                    long == is_long(3),
                    views(words@) == all.take(i as int).filter(long),
                decreases matches.len() - i,
            {
                proof {
                    assert(all.take(i + 1) =~= all.take(i as int).push(all[i as int]));
                    all.take(i as int).lemma_filter_push(all[i as int], long);
                }
                let word = matches[i].as_str().to_lowercase();
                if word.as_str().as_bytes().len() >= 3 {
                    let ghost before = views(words@);
                    words.push(word);
                    assert(views(words@) =~= before.push(all[i as int]));
                }
                i += 1;
            }
            assert(all.take(matches@.len() as int) == all);
        },
        None => {
            assert(views(words@) =~= Seq::<Seq<char>>::empty());
        },
    }
    words
}

fn collect_words(filenames: &Vec<String>) -> (words: Vec<String>)
    ensures
        views(words@) == all_name_words(views(filenames@)),
{
    let ghost names = views(filenames@);
    let mut words: Vec<String> = Vec::new();
    let mut i: usize = 0;
    proof {
        assert(names.take(0) =~= Seq::<Seq<char>>::empty());
        assert(views(words@) =~= Seq::<Seq<char>>::empty());
    }
    while i < filenames.len()
        invariant
            i <= filenames.len(),
            names == views(filenames@),
            views(words@) == all_name_words(names.take(i as int)),
        decreases filenames.len() - i,
    {
        let mut found = words_of_matches(find_all("[a-zA-Z]{3,}", filenames[i].as_str()));
        proof {
            assert(names.take(i + 1).drop_last() =~= names.take(i as int));
            assert(names.take(i + 1).last() == names[i as int]);
        }
        let ghost before = views(words@);
        let ghost fresh = views(found@);
        words.append(&mut found);
        assert(views(words@) =~= before + fresh);
        i += 1;
    }
    assert(names.take(filenames@.len() as int) == names);
    words
}

/// The most frequent word of the file names, as a list of one word, or of none
/// where the names hold no word. Among words that occur equally often the one
/// that occurs first is taken.
pub fn extract_common_words(filenames: &Vec<String>) -> (top: Vec<String>)
    ensures
        views(top@) == one_or_none(most_frequent(all_name_words(views(filenames@)))),
{
    let words = collect_words(filenames);
    most_frequent_word(&words)
}

/// The most frequent of the words, as a list of one word, or of none for no
/// words. Among words that occur equally often the one that occurs first is
/// taken.
pub fn most_frequent_word(words: &Vec<String>) -> (top: Vec<String>)
    ensures
        views(top@) == one_or_none(most_frequent(views(words@))),
{
    let d = distinct_words(words);
    let mut top: Vec<String> = Vec::new();
    if d.len() == 0 {
        assert(views(top@) =~= Seq::<Seq<char>>::empty());
        return top;
    }
    let ghost all = views(words@);
    let ghost unique = views(d@);
    let mut best: usize = 0;
    assert(unique[0] == d@[0]@);
    let mut best_count: usize = count_occurrences(words, &d[0]);
    let mut j: usize = 1;
    while j < d.len()
        invariant
            1 <= j <= d.len(),
            all == views(words@),
            unique == views(d@),
            best < j,
            best_count == occurrences(all, unique[best as int]),
            forall|t: int| 0 <= t < j ==> occurrences(all, #[trigger] unique[t]) <= best_count,
            forall|t: int| 0 <= t < best ==> occurrences(all, #[trigger] unique[t]) < best_count,
        decreases d.len() - j,
    {
        assert(unique[j as int] == d@[j as int]@);
        let count = count_occurrences(words, &d[j]);
        if count > best_count {
            best = j;
            best_count = count;
        }
        j += 1;
    }
    proof {
        assert(is_leader(all, unique, best as int));
        lemma_leader_unique(all, unique, best as int, choose|b: int| is_leader(all, unique, b));
        assert(unique[best as int] == d@[best as int]@);
    }
    top.push(d[best].clone());
    assert(views(top@) =~= seq![unique[best as int]]);
    top
}

/// The lower-cased stems of a list of file names.
pub open spec fn lowered_stems(names: Seq<Seq<char>>) -> Seq<Seq<char>> {
    Seq::new(names.len(), |i: int| lowercase(file_stem(names[i])))
}

/// The name of a group of files, from their file names: `Group` for no files;
/// the shared beginning of their lower-cased stems, capitalised and trimmed at
/// its end, where it takes at least three bytes; else their most frequent
/// word, capitalised; else the upper-cased extension of the first file
/// followed by `_Files`, or `Mixed_Files` where it has none.
pub open spec fn group_name(names: Seq<Seq<char>>) -> Seq<char> {
    let stems = lowered_stems(names);
    if names.len() == 0 {
        "Group"@
    } else if byte_len(common_prefix(stems)) >= 3 {
        trim_end(capitalized(common_prefix(stems)))
    } else {
        match most_frequent(all_name_words(stems)) {
            Some(word) => capitalized_ascii(word),
            None => match extension(names[0]) {
                Some(e) => uppercase(e) + "_Files"@,
                None => "Mixed_Files"@,
            },
        }
    }
}

fn capitalize(prefix: &str) -> (r: Vec<char>)
    ensures
        r@ == capitalized(prefix@),
{
    let chars = to_chars(prefix);
    if chars.len() == 0 {
        return chars;
    }
    let mut r = uppercase_of_char(chars[0]);
    let ghost head = r@;
    let mut i: usize = 1;
    while i < chars.len()
        invariant
            1 <= i <= chars.len(),
            r@ == head + chars@.subrange(1, i as int),
        decreases chars.len() - i,
    {
        r.push(chars[i]);
        assert(chars@.subrange(1, i as int).push(chars@[i as int]) =~= chars@.subrange(1, i + 1));
        assert(r@ =~= head + chars@.subrange(1, i + 1));
        i += 1;
    }
    assert(chars@.subrange(1, chars@.len() as int) =~= chars@.skip(1));
    r
}

fn trim_end_exec(chars: &Vec<char>) -> (r: String)
    ensures
        r@ == trim_end(chars@),
{
    let mut end: usize = chars.len();
    assert(chars@.take(end as int) == chars@);
    while end > 0 && !chars[end - 1].is_alphanumeric()
        invariant
            end <= chars.len(),
            trim_end(chars@) == trim_end(chars@.take(end as int)),
        decreases end,
    {
        assert(chars@.take(end as int).drop_last() =~= chars@.take(end - 1));
        end -= 1;
    }
    assert(chars@.subrange(0, end as int) == chars@.take(end as int));
    substring(chars, 0, end)
}

fn capitalize_ascii(word: &str) -> (r: String)
    ensures
        r@ == capitalized_ascii(word@),
{
    let chars = to_chars(word);
    if chars.len() > 0 && 'a' <= chars[0] && chars[0] <= 'z' {
        let mut r = String::new();
        r.push(((chars[0] as u8) - 32) as char);
        let rest = substring(&chars, 1, chars.len());
        r.append(rest.as_str());
        assert(chars@.subrange(1, chars@.len() as int) =~= chars@.skip(1));
        assert(r@ =~= seq![upper_ascii(chars@[0])] + chars@.skip(1));
        r
    } else {
        word.to_owned()
    }
}

/// The name of a group of files, from their file names.
pub fn generate_name_from_files(files: &Vec<String>) -> (name: String)
    ensures
        name@ == group_name(views(files@)),
{
    if files.len() == 0 {
        return "Group".to_owned();
    }
    let ghost names = views(files@);
    let mut stems: Vec<String> = Vec::new();
    let mut i: usize = 0;
    while i < files.len()
        invariant
            i <= files.len(),
            names == views(files@),
            stems@.len() == i,
            forall|j: int| 0 <= j < i ==> (#[trigger] stems@[j])@ == lowercase(file_stem(names[j])),
        decreases files.len() - i,
    {
        assert(names[i as int] == files@[i as int]@);
        stems.push(file_stem_of(files[i].as_str()).as_str().to_lowercase());
        i += 1;
    }
    assert(views(stems@) =~= lowered_stems(names));
    let prefix = find_common_prefix(&stems);
    if prefix.as_str().as_bytes().len() >= 3 {
        let capital = capitalize(prefix.as_str());
        return trim_end_exec(&capital);
    }
    let words = extract_common_words(&stems);
    if words.len() > 0 {
        assert(views(words@)[0] == words@[0]@);
        return capitalize_ascii(words[0].as_str());
    }
    assert(names[0] == files@[0]@);
    assert(most_frequent(all_name_words(lowered_stems(names))) is None) by {
        if most_frequent(all_name_words(lowered_stems(names))) is Some {
            assert(views(words@).len() == 1);
        }
    }
    match extension_of(files[0].as_str()) {
        Some(e) => {
            let mut name = e.as_str().to_uppercase();
            name.append("_Files");
            name
        },
        None => "Mixed_Files".to_owned(),
    }
}

} // verus!
