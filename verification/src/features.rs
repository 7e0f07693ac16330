//! The shape of a file name as a vector of exact fractions.
//!
//! Of the lower-cased stem of a file name the vector holds the share of each
//! letter `a` to `z` among its letters, then its length against 50, the share
//! of digits and the share of characters that are neither letters nor numbers.

use crate::chars::{
    byte_len, is_ascii_digit, is_lower_ascii, lowercase, same_text, to_chars, unicode_alphanumeric,
};
use crate::names::{extension, extension_of, file_stem, file_stem_of};
use vstd::prelude::*;

verus! {

/// An exact fraction. A caller that works with floating point divides `num` by
/// `den`.
#[derive(Debug, Clone, Copy, PartialEq, Eq, Structural)]
pub struct Fraction {
    pub num: usize,
    pub den: usize,
}

/// Whether a character is letter number `k`, counted from `a`.
pub open spec fn is_letter(k: int) -> spec_fn(char) -> bool {
    |c: char| c as int == 'a' as int + k
}

/// Whether a character is one of `a` to `z`.
pub open spec fn any_letter() -> spec_fn(char) -> bool {
    |c: char| is_lower_ascii(c)
}

/// Whether a character is one of `0` to `9`.
pub open spec fn any_digit() -> spec_fn(char) -> bool {
    |c: char| is_ascii_digit(c)
}

/// Whether a character is neither a letter nor a number.
pub open spec fn any_special() -> spec_fn(char) -> bool {
    |c: char| !unicode_alphanumeric(c)
}

/// How often letter number `k` occurs in `stem`.
pub open spec fn letter_count(stem: Seq<char>, k: int) -> nat {
    stem.filter(is_letter(k)).len()
}

/// How many of the letters `a` to `z` occur in `stem`.
pub open spec fn letter_total(stem: Seq<char>) -> nat {
    stem.filter(any_letter()).len()
}

/// How many digits occur in `stem`.
pub open spec fn digit_count(stem: Seq<char>) -> nat {
    stem.filter(any_digit()).len()
}

/// How many characters of `stem` are neither letters nor numbers.
pub open spec fn special_count(stem: Seq<char>) -> nat {
    stem.filter(any_special()).len()
}

/// `n`, or 1 where `n` is 0: a denominator.
pub open spec fn at_least_one(n: nat) -> nat {
    if n == 0 {
        1
    } else {
        n
    }
}

/// Entry `i` of the vector of a lower-cased stem.
pub open spec fn shape_entry(stem: Seq<char>, i: int) -> Fraction {
    let length = byte_len(stem);
    if i < 26 {
        Fraction {
            num: letter_count(stem, i) as usize,
            den: at_least_one(letter_total(stem)) as usize,
        }
    } else if i == 26 {
        Fraction {
            num: (if length < 50 {
                length
            } else {
                50
            }) as usize,
            den: 50,
        }
    } else if i == 27 {
        Fraction { num: digit_count(stem) as usize, den: at_least_one(length) as usize }
    } else {
        Fraction { num: special_count(stem) as usize, den: at_least_one(length) as usize }
    }
}

/// The vector of a lower-cased stem.
pub open spec fn filename_shape(stem: Seq<char>) -> Seq<Fraction> {
    Seq::new(29, |i: int| shape_entry(stem, i))
}

/// The vector of a file name.
pub open spec fn filename_vector(name: Seq<char>) -> Seq<Fraction> {
    filename_shape(lowercase(file_stem(name)))
}

/// The sum of the first `n` numerators.
pub open spec fn numerator_sum(v: Seq<Fraction>, n: int) -> int
    decreases n,
{
    if n <= 0 {
        0
    } else {
        numerator_sum(v, n - 1) + v[n - 1].num
    }
}

spec fn count_sum(stem: Seq<char>, n: int) -> int
    decreases n,
{
    if n <= 0 {
        0
    } else {
        count_sum(stem, n - 1) + letter_count(stem, n - 1)
    }
}

proof fn lemma_count_sum_push(stem: Seq<char>, c: char, n: int)
    requires
        0 <= n <= 26,
    ensures
        count_sum(stem.push(c), n) == count_sum(stem, n) + (if ('a' as int) <= (c as int) && (
        c as int) < ('a' as int) + n {
            1int
        } else {
            0int
        }),
    decreases n,
{
    if n > 0 {
        lemma_count_sum_push(stem, c, n - 1);
        stem.lemma_filter_push(c, is_letter(n - 1));
    }
}

proof fn lemma_count_sum(stem: Seq<char>)
    ensures
        count_sum(stem, 26) == letter_total(stem),
    decreases stem.len(),
{
    reveal(Seq::filter);
    if stem.len() == 0 {
        assert forall|n: int| 0 <= n <= 26 implies count_sum(stem, n) == 0 by {
            lemma_count_sum_zero(stem, n);
        }
    } else {
        let before = stem.drop_last();
        lemma_count_sum(before);
        assert(before.push(stem.last()) =~= stem);
        lemma_count_sum_push(before, stem.last(), 26);
        before.lemma_filter_push(stem.last(), any_letter());
        assert('a' as int + 25 == 'z' as int);
    }
}

proof fn lemma_count_sum_zero(stem: Seq<char>, n: int)
    requires
        stem.len() == 0,
        0 <= n,
    ensures
        count_sum(stem, n) == 0,
    decreases n,
{
    reveal(Seq::filter);
    if n > 0 {
        lemma_count_sum_zero(stem, n - 1);
    }
}

proof fn lemma_numerators(stem: Seq<char>, n: int)
    requires
        0 <= n <= 26,
        stem.len() <= usize::MAX,
    ensures
        numerator_sum(filename_shape(stem), n) == count_sum(stem, n),
    decreases n,
{
    if n > 0 {
        lemma_numerators(stem, n - 1);
        stem.lemma_filter_len(is_letter(n - 1));
    }
}

/// Whether the letter entries of `v` sum to 1 where `stem` holds a letter, and
/// are all 0 where it holds none: the 26 letter entries share one denominator;
/// with a letter among `a` to `z` in the stem their numerators add up to it;
/// without one, every numerator is 0.
pub open spec fn letter_shares_sum_to_one(v: Seq<Fraction>, stem: Seq<char>) -> bool {
    let lettered = exists|i: int| 0 <= i < stem.len() && is_lower_ascii(#[trigger] stem[i]);
    &&& forall|k: int| 0 <= k < 26 ==> (#[trigger] v[k]).den == v[0].den
    &&& v[0].den > 0
    &&& lettered ==> numerator_sum(v, 26) == v[0].den
    &&& !lettered ==> forall|k: int| 0 <= k < 26 ==> (#[trigger] v[k]).num == 0
}

/// The letter entries of the vector of a stem sum to 1 where the stem holds a
/// letter, and are all 0 where it holds none.
pub proof fn lemma_letter_shares_sum_to_one(stem: Seq<char>)
    requires
        stem.len() <= usize::MAX,
    ensures
        letter_shares_sum_to_one(filename_shape(stem), stem),
{
    let v = filename_shape(stem);
    let lettered = exists|i: int| 0 <= i < stem.len() && is_lower_ascii(#[trigger] stem[i]);
    stem.lemma_filter_len(any_letter());
    lemma_numerators(stem, 26);
    lemma_count_sum(stem);
    if lettered {
        let i = choose|i: int| 0 <= i < stem.len() && is_lower_ascii(#[trigger] stem[i]);
        stem.lemma_filter_contains(any_letter(), i);
        assert(letter_total(stem) > 0);
    } else {
        assert forall|k: int| 0 <= k < 26 implies (#[trigger] v[k]).num == 0 by {
            let found = stem.filter(is_letter(k));
            if found.len() > 0 {
                stem.lemma_filter_pred(is_letter(k), 0);
                stem.lemma_filter_contains_rev(is_letter(k), found[0]);
                assert(found.contains(found[0]));
                let at = choose|at: int| 0 <= at < stem.len() && stem[at] == found[0];
                assert(is_lower_ascii(stem[at]));
            }
        }
    }
}

/// The vector of a file name: 29 exact fractions, of which the first 26 sum to
/// 1 where the lower-cased stem holds a letter `a` to `z`, and are 0 otherwise.
pub fn extract_filename_features(name: &str) -> (v: Vec<Fraction>)
    ensures
        v@ == filename_vector(name@),
        letter_shares_sum_to_one(v@, lowercase(file_stem(name@))),
{
    let stem = file_stem_of(name).as_str().to_lowercase();
    shape_of_stem(stem.as_str())
}

/// The vector of a stem that is in lower case already.
pub fn shape_of_stem(stem: &str) -> (v: Vec<Fraction>)
    ensures
        v@ == filename_shape(stem@),
        letter_shares_sum_to_one(v@, stem@),
{
    let chars = to_chars(stem);
    proof {
        lemma_letter_shares_sum_to_one(chars@);
    }
    let length: usize = stem.as_bytes().len();
    let mut counts: Vec<usize> = Vec::new();
    let mut k: usize = 0;
    while k < 26
        invariant
            k <= 26,
            counts@.len() == k,
            forall|j: int| 0 <= j < k ==> counts@[j] == 0,
        decreases 26 - k,
    {
        counts.push(0);
        k += 1;
    }
    let mut total: usize = 0;
    let mut digits: usize = 0;
    let mut specials: usize = 0;
    let mut i: usize = 0;
    proof {
        reveal(Seq::filter);
        assert(chars@.take(0) =~= Seq::<char>::empty());
    }
    while i < chars.len()
        invariant
            i <= chars.len(),
            counts@.len() == 26,
            forall|j: int| 0 <= j < 26 ==> counts@[j] == letter_count(chars@.take(i as int), j),
            total == letter_total(chars@.take(i as int)),
            digits == digit_count(chars@.take(i as int)),
            specials == special_count(chars@.take(i as int)),
        decreases chars.len() - i,
    {
        let c = chars[i];
        proof {
            let before = chars@.take(i as int);
            assert(chars@.take(i + 1) =~= before.push(c));
            before.lemma_filter_push(c, any_letter());
            before.lemma_filter_push(c, any_digit());
            before.lemma_filter_push(c, any_special());
            before.lemma_filter_len(any_letter());
            before.lemma_filter_len(any_digit());
            before.lemma_filter_len(any_special());
            assert forall|j: int| 0 <= j < 26 implies letter_count(before.push(c), j)
                == letter_count(before, j) + (if c as int == 'a' as int + j {
                1int
            } else {
                0int
            }) && letter_count(before, j) <= i by {
                before.lemma_filter_push(c, is_letter(j));
                before.lemma_filter_len(is_letter(j));
            }
        }
        if 'a' <= c && c <= 'z' {
            let at: usize = (c as u32 - 'a' as u32) as usize;
            counts.set(at, counts[at] + 1);
            total += 1;
        }
        if '0' <= c && c <= '9' {
            digits += 1;
        }
        if !c.is_alphanumeric() {
            specials += 1;
        }
        i += 1;
    }
    assert(chars@.take(chars@.len() as int) == chars@);
    let letters_den: usize = if total == 0 {
        1
    } else {
        total
    };
    let length_den: usize = if length == 0 {
        1
    } else {
        length
    };
    let mut v: Vec<Fraction> = Vec::new();
    let mut k: usize = 0;
    while k < 26
        invariant
            k <= 26,
            counts@.len() == 26,
            v@.len() == k,
            forall|j: int|
                0 <= j < 26 ==> counts@[j] == letter_count(chars@, j),
            letters_den == at_least_one(letter_total(chars@)),
            forall|j: int| 0 <= j < k ==> v@[j] == shape_entry(chars@, j),
        decreases 26 - k,
    {
        v.push(Fraction { num: counts[k], den: letters_den });
        k += 1;
    }
    v.push(
        Fraction {
            num: if length < 50 {
                length
            } else {
                50
            },
            den: 50,
        },
    );
    v.push(Fraction { num: digits, den: length_den });
    v.push(Fraction { num: specials, den: length_den });
    assert(v@ =~= filename_shape(chars@));
    v
}

/// Whether a lower-cased extension is one of those whose files are read as text:
/// source code, markup, configuration, data and plain text.
pub open spec fn is_text_extension(e: Seq<char>) -> bool {
    ||| e == "txt"@ || e == "md"@ || e == "rs"@ || e == "py"@ || e == "js"@
    ||| e == "ts"@ || e == "jsx"@ || e == "tsx"@ || e == "html"@ || e == "css"@
    ||| e == "json"@ || e == "xml"@ || e == "yaml"@ || e == "yml"@ || e == "toml"@
    ||| e == "ini"@ || e == "cfg"@ || e == "conf"@ || e == "c"@ || e == "cpp"@
    ||| e == "h"@ || e == "hpp"@ || e == "java"@ || e == "go"@ || e == "php"@
    ||| e == "rb"@ || e == "swift"@ || e == "kt"@ || e == "scala"@ || e == "sh"@
    ||| e == "bat"@ || e == "ps1"@ || e == "r"@ || e == "lua"@ || e == "vim"@
    ||| e == "sql"@ || e == "csv"@ || e == "log"@ || e == "tex"@ || e == "rtf"@
}

/// Whether a file name has the extension of a text file, whatever its case.
pub open spec fn is_text_name(name: Seq<char>) -> bool {
    match extension(name) {
        Some(e) => is_text_extension(lowercase(e)),
        None => false,
    }
}

fn text_extension(e: &str) -> (r: bool)
    ensures
        r == is_text_extension(e@),
{
    same_text(e, "txt") || same_text(e, "md") || same_text(e, "rs") || same_text(e, "py")
        || same_text(e, "js") || same_text(e, "ts") || same_text(e, "jsx") || same_text(e, "tsx")
        || same_text(e, "html") || same_text(e, "css") || same_text(e, "json") || same_text(
        e,
        "xml",
    ) || same_text(e, "yaml") || same_text(e, "yml") || same_text(e, "toml") || same_text(
        e,
        "ini",
    ) || same_text(e, "cfg") || same_text(e, "conf") || same_text(e, "c") || same_text(e, "cpp")
        || same_text(e, "h") || same_text(e, "hpp") || same_text(e, "java") || same_text(e, "go")
        || same_text(e, "php") || same_text(e, "rb") || same_text(e, "swift") || same_text(
        e,
        "kt",
    ) || same_text(e, "scala") || same_text(e, "sh") || same_text(e, "bat") || same_text(
        e,
        "ps1",
    ) || same_text(e, "r") || same_text(e, "lua") || same_text(e, "vim") || same_text(e, "sql")
        || same_text(e, "csv") || same_text(e, "log") || same_text(e, "tex") || same_text(
        e,
        "rtf",
    )
}

/// Whether the file is read as text, judged by its extension alone.
pub fn is_text_file(name: &str) -> (r: bool)
    ensures
        r == is_text_name(name@),
{
    match extension_of(name) {
        Some(e) => {
            let lowered = e.as_str().to_lowercase();
            text_extension(lowered.as_str())
        },
        None => false,
    }
}

} // verus!
