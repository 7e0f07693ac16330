//! Moving files into their folders: safe folder names, and names that do not
//! collide with those already taken.

use crate::chars::{substring, to_chars, views};
use crate::names::{extension, extension_of, file_stem, file_stem_of};
use crate::words::position;
use vstd::prelude::*;
use vstd::string::StringExecFns;

verus! {

/// Whether a character may stand in a folder name: a letter `a` to `z` or `A`
/// to `Z`, a digit, `_` or `-`.
pub open spec fn is_safe(c: char) -> bool {
    ('a' <= c <= 'z') || ('A' <= c <= 'Z') || ('0' <= c <= '9') || c == '_' || c == '-'
}

/// A name with every unsafe character replaced by `_`.
pub open spec fn replaced(name: Seq<char>) -> Seq<char> {
    Seq::new(
        name.len(),
        |i: int|
            if is_safe(name[i]) {
                name[i]
            } else {
                '_'
            },
    )
}

/// A string without the `_` at its start.
pub open spec fn trim_start(s: Seq<char>) -> Seq<char>
    decreases s.len(),
{
    if s.len() > 0 && s[0] == '_' {
        trim_start(s.drop_first())
    } else {
        s
    }
}

/// A string without the `_` at its end.
pub open spec fn trim_end(s: Seq<char>) -> Seq<char>
    decreases s.len(),
{
    if s.len() > 0 && s.last() == '_' {
        trim_end(s.drop_last())
    } else {
        s
    }
}

/// The folder name for a group name: every unsafe character replaced by `_`,
/// then without `_` at either end.
pub open spec fn sanitized(name: Seq<char>) -> Seq<char> {
    trim_end(trim_start(replaced(name)))
}

/// A folder name never holds an unsafe character, and neither starts nor ends
/// with `_`.
pub proof fn lemma_sanitized_is_safe(name: Seq<char>)
    ensures
        forall|i: int| 0 <= i < sanitized(name).len() ==> is_safe(#[trigger] sanitized(name)[i]),
        sanitized(name).len() > 0 ==> sanitized(name)[0] != '_' && sanitized(name).last() != '_',
{
    let r = replaced(name);
    assert forall|i: int| 0 <= i < r.len() implies is_safe(#[trigger] r[i]) by {}
    lemma_trim_start(r);
    lemma_trim_end(trim_start(r));
}

proof fn lemma_trim_start(s: Seq<char>)
    requires
        forall|i: int| 0 <= i < s.len() ==> is_safe(#[trigger] s[i]),
    ensures
        forall|i: int| 0 <= i < trim_start(s).len() ==> is_safe(#[trigger] trim_start(s)[i]),
        trim_start(s).len() > 0 ==> trim_start(s)[0] != '_',
    decreases s.len(),
{
    if s.len() > 0 && s[0] == '_' {
        let t = s.drop_first();
        assert forall|i: int| 0 <= i < t.len() implies is_safe(#[trigger] t[i]) by {
            assert(t[i] == s[i + 1]);
        }
        lemma_trim_start(t);
    }
}

proof fn lemma_trim_end(s: Seq<char>)
    requires
        forall|i: int| 0 <= i < s.len() ==> is_safe(#[trigger] s[i]),
        s.len() > 0 ==> s[0] != '_',
    ensures
        forall|i: int| 0 <= i < trim_end(s).len() ==> is_safe(#[trigger] trim_end(s)[i]),
        trim_end(s).len() > 0 ==> trim_end(s)[0] != '_' && trim_end(s).last() != '_',
    decreases s.len(),
{
    if s.len() > 0 && s.last() == '_' {
        let t = s.drop_last();
        assert forall|i: int| 0 <= i < t.len() implies is_safe(#[trigger] t[i]) by {
            assert(t[i] == s[i]);
        }
        if t.len() > 0 {
            assert(t[0] == s[0]);
        }
        lemma_trim_end(t);
    }
}

fn is_safe_char(c: char) -> (r: bool)
    ensures
        r == is_safe(c),
{
    ('a' <= c && c <= 'z') || ('A' <= c && c <= 'Z') || ('0' <= c && c <= '9') || c == '_' || c
        == '-'
}

/// The folder name for a group name.
pub fn sanitize_dirname(name: &str) -> (dir: String)
    ensures
        dir@ == sanitized(name@),
{
    let chars = to_chars(name);
    let mut safe: Vec<char> = Vec::new();
    let mut i: usize = 0;
    while i < chars.len()
        invariant
            i <= chars.len(),
            safe@.len() == i,
            forall|j: int| 0 <= j < i ==> safe@[j] == replaced(chars@)[j],
        decreases chars.len() - i,
    {
        if is_safe_char(chars[i]) {
            safe.push(chars[i]);
        } else {
            safe.push('_');
        }
        i += 1;
    }
    assert(safe@ =~= replaced(chars@));
    let mut start: usize = 0;
    assert(safe@.skip(0) == safe@);
    while start < safe.len() && safe[start] == '_'
        invariant
            start <= safe.len(),
            trim_start(safe@) == trim_start(safe@.skip(start as int)),
        decreases safe.len() - start,
    {
        assert(safe@.skip(start as int).drop_first() =~= safe@.skip(start + 1));
        start += 1;
    }
    let ghost body = safe@.skip(start as int);
    assert(trim_start(safe@) == body);
    let mut end: usize = safe.len();
    assert(safe@.subrange(start as int, end as int) =~= body);
    while end > start && safe[end - 1] == '_'
        invariant
            start <= end <= safe.len(),
            body == safe@.skip(start as int),
            trim_end(body) == trim_end(safe@.subrange(start as int, end as int)),
        decreases end - start,
    {
        assert(safe@.subrange(start as int, end as int).drop_last() =~= safe@.subrange(
            start as int,
            end - 1,
        ));
        assert(safe@.subrange(start as int, end as int).last() == safe@[end - 1]);
        end -= 1;
    }
    proof {
        let kept = safe@.subrange(start as int, end as int);
        if kept.len() > 0 {
            assert(kept.last() == safe@[end - 1]);
        }
    }
    substring(&safe, start, end)
}

/// The digit for a number below ten.
pub open spec fn digit(d: nat) -> char {
    (('0' as u8) + (d as u8)) as char
}

/// A number in decimal digits.
pub open spec fn decimal(n: nat) -> Seq<char>
    decreases n,
{
    if n < 10 {
        seq![digit(n)]
    } else {
        decimal(n / 10).push(digit(n % 10))
    }
}

fn decimal_of(n: usize) -> (digits: Vec<char>)
    ensures
        digits@ == decimal(n as nat),
    decreases n,
{
    if n < 10 {
        let mut digits: Vec<char> = Vec::new();
        digits.push((48u8 + n as u8) as char);
        assert(digits@ =~= seq![digit(n as nat)]);
        digits
    } else {
        let mut digits = decimal_of(n / 10);
        digits.push((48u8 + (n % 10) as u8) as char);
        digits
    }
}

/// What follows the number in a numbered name: `.` and the extension, or
/// nothing for a name without an extension.
pub open spec fn dotted_extension(name: Seq<char>) -> Seq<char> {
    match extension(name) {
        Some(e) => seq!['.'] + e,
        None => Seq::empty(),
    }
}

/// Name number `i` in place of a name that is taken: `a_1.txt` for `a.txt`.
pub open spec fn numbered(name: Seq<char>, i: nat) -> Seq<char> {
    file_stem(name) + seq!['_'] + decimal(i) + dotted_extension(name)
}

/// Why no name could be given.
#[derive(Debug, Clone, Copy, PartialEq, Eq, Structural)]
pub enum NamingError {
    /// The name and all its 999 numbered forms are taken.
    TooManyConflicts,
}

impl NamingError {
    /// The error in words.
    pub fn message(&self) -> (text: String)
        ensures
            text@ == "Could not find available filename after 999 attempts"@,
    {
        "Could not find available filename after 999 attempts".to_owned()
    }
}

/// The first numbered name from number `i` on that is not taken, up to 999.
pub open spec fn first_free(name: Seq<char>, taken: Seq<Seq<char>>, i: nat) -> Option<Seq<char>>
    decreases 1000 - i,
{
    if i > 999 {
        None
    } else if !taken.contains(numbered(name, i)) {
        Some(numbered(name, i))
    } else {
        first_free(name, taken, i + 1)
    }
}

/// The name under which a file is stored among those taken: its own where that
/// is free, else the first free of its numbered forms 1 to 999, else none.
pub open spec fn resolution(name: Seq<char>, taken: Seq<Seq<char>>) -> Result<Seq<char>, NamingError> {
    if !taken.contains(name) {
        Ok(name)
    } else {
        match first_free(name, taken, 1) {
            Some(free) => Ok(free),
            None => Err(NamingError::TooManyConflicts),
        }
    }
}

/// The view of a name or an error.
pub open spec fn name_view(r: Result<String, NamingError>) -> Result<Seq<char>, NamingError> {
    match r {
        Ok(s) => Ok(s@),
        Err(e) => Err(e),
    }
}

/// What `first_free` finds is free, and every numbered name before it is taken;
/// it finds nothing only where all of them are taken.
pub proof fn lemma_first_free(name: Seq<char>, taken: Seq<Seq<char>>, i: nat)
    requires
        1 <= i <= 1000,
    ensures
        match first_free(name, taken, i) {
            Some(free) => exists|k: nat|
                i <= k <= 999 && free == numbered(name, k) && !taken.contains(free) && forall|j: nat|
                    i <= j < k ==> taken.contains(#[trigger] numbered(name, j)),
            None => forall|j: nat| i <= j <= 999 ==> taken.contains(#[trigger] numbered(name, j)),
        },
    decreases 1000 - i,
{
    if i <= 999 && taken.contains(numbered(name, i)) {
        lemma_first_free(name, taken, i + 1);
        match first_free(name, taken, i + 1) {
            Some(free) => {
                let k = choose|k: nat|
                    i + 1 <= k <= 999 && free == numbered(name, k) && !taken.contains(free)
                        && forall|j: nat|
                        i + 1 <= j < k ==> taken.contains(#[trigger] numbered(name, j));
                assert(i <= k <= 999 && free == numbered(name, k) && !taken.contains(free)
                    && forall|j: nat| i <= j < k ==> taken.contains(#[trigger] numbered(name, j)));
            },
            None => {},
        }
    } else if i <= 999 {
        assert(i <= i <= 999 && !taken.contains(numbered(name, i)) && forall|j: nat|
            i <= j < i ==> taken.contains(#[trigger] numbered(name, j)));
    }
}

fn numbered_name(stem: &str, i: usize, tail: &str) -> (name: String)
    ensures
        name@ == stem@ + seq!['_'] + decimal(i as nat) + tail@,
{
    let mut name = stem.to_owned();
    name.push('_');
    let digits = decimal_of(i);
    let number = substring(&digits, 0, digits.len());
    assert(digits@.subrange(0, digits@.len() as int) == digits@);
    name.append(number.as_str());
    name.append(tail);
    assert(stem@.push('_') =~= stem@ + seq!['_']);
    name
}

/// The name under which a file can be stored in a folder that holds the names
/// `taken`: its own name where that is free, else its first free numbered
/// form, `name_1.ext` to `name_999.ext`; an error where all are taken.
pub fn handle_naming_conflict(name: &str, taken: &Vec<String>) -> (r: Result<String, NamingError>)
    ensures
        name_view(r) == resolution(name@, views(taken@)),
{
    let own = name.to_owned();
    match position(taken, &own) {
        Some(at) => {
            assert(views(taken@)[at as int] == name@);
        },
        None => {
            return Ok(own);
        },
    }
    let stem = file_stem_of(name);
    let tail: String = match extension_of(name) {
        Some(e) => {
            let mut t = String::new();
            t.push('.');
            t.append(e.as_str());
            assert(t@ =~= seq!['.'] + e@);
            t
        },
        None => String::new(),
    };
    assert(tail@ == dotted_extension(name@));
    let mut i: usize = 1;
    while i < 1000
        invariant
            1 <= i <= 1000,
            views(taken@).contains(name@),
            stem@ == file_stem(name@),
            tail@ == dotted_extension(name@),
            first_free(name@, views(taken@), 1) == first_free(name@, views(taken@), i as nat),
        decreases 1000 - i,
    {
        let candidate = numbered_name(stem.as_str(), i, tail.as_str());
        assert(candidate@ == numbered(name@, i as nat));
        match position(taken, &candidate) {
            Some(at) => {
                assert(views(taken@)[at as int] == candidate@);
            },
            None => {
                return Ok(candidate);
            },
        }
        i += 1;
    }
    Err(NamingError::TooManyConflicts)
}

/// The line that reports the folder of a group: what was created, or, in a dry
/// run, what would be.
pub open spec fn creation_report(directory: Seq<char>, dry_run: bool) -> Seq<char> {
    if dry_run {
        "[DRY RUN] Would create: "@ + directory
    } else {
        "Created directory: "@ + directory
    }
}

/// The line that reports the move of one file: what was moved where, or, in a
/// dry run, what would be.
pub open spec fn move_report(from: Seq<char>, to: Seq<char>, dry_run: bool) -> Seq<char> {
    if dry_run {
        "  [DRY RUN] Would move: "@ + from + " → "@ + to
    } else {
        "  Moved: "@ + from + " → "@ + to
    }
}

/// The line that reports the folder of a group.
pub fn creation_line(directory: &str, dry_run: bool) -> (line: String)
    ensures
        line@ == creation_report(directory@, dry_run),
{
    let mut line = if dry_run {
        "[DRY RUN] Would create: ".to_owned()
    } else {
        "Created directory: ".to_owned()
    };
    line.append(directory);
    line
}

/// The line that reports the move of one file.
pub fn move_line(from: &str, to: &str, dry_run: bool) -> (line: String)
    ensures
        line@ == move_report(from@, to@, dry_run),
{
    let mut line = if dry_run {
        "  [DRY RUN] Would move: ".to_owned()
    } else {
        "  Moved: ".to_owned()
    };
    line.append(from);
    line.append(" → ");
    line.append(to);
    line
}

} // verus!
