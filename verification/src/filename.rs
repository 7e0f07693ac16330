//! Sorting files into folders by the shape of their names.
//!
//! A rule is a pattern, a target folder and a priority. A file goes to the folder
//! of the first rule whose pattern its name meets.

use crate::categorise::{
    is_system_file, lowered_extension, lowered_extension_of, should_skip_file,
};
use crate::chars::{
    byte_len, byte_len_of, contains_part, first_index, has_part, has_prefix, last_index, lowercase,
    lowercase_of, same_text, starts_with, text_of, to_chars, unicode_alphabetic, unicode_numeric,
};
use crate::ranking::{is_ranking, rank_descending, ranking};
use crate::matching::{is_match, regex_is_match};
use vstd::prelude::*;

verus! {

/// What a rule looks for in a file name.
#[derive(Debug, Clone)]
pub enum PatternType {
    /// The name starts with this text, whatever the case.
    Prefix(String),
    /// The name contains this text, whatever the case.
    Contains(String),
    /// The name has a base name before its numbers or separators.
    BaseName,
    /// The name holds a date.
    DatePattern,
}

/// A pattern, the folder for the files that meet it, and its priority.
#[derive(Debug, Clone)]
pub struct PatternRule {
    pub pattern_type: PatternType,
    pub target_folder: String,
    /// Rules of higher priority are to be tried first.
    pub priority: u8,
}

/// The mathematical value of a `PatternType`.
pub enum PatternModel {
    Prefix(Seq<char>),
    Contains(Seq<char>),
    BaseName,
    DatePattern,
}

/// The mathematical value of a `PatternRule`.
pub struct RuleModel {
    pub pattern: PatternModel,
    pub folder: Seq<char>,
    pub priority: u8,
}

impl View for PatternType {
    type V = PatternModel;

    open spec fn view(&self) -> PatternModel {
        match self {
            PatternType::Prefix(p) => PatternModel::Prefix(p@),
            PatternType::Contains(p) => PatternModel::Contains(p@),
            PatternType::BaseName => PatternModel::BaseName,
            PatternType::DatePattern => PatternModel::DatePattern,
        }
    }
}

impl View for PatternRule {
    type V = RuleModel;

    open spec fn view(&self) -> RuleModel {
        RuleModel {
            pattern: self.pattern_type@,
            folder: self.target_folder@,
            priority: self.priority,
        }
    }
}

/// The values of a list of rules.
pub open spec fn rule_views(rules: Seq<PatternRule>) -> Seq<RuleModel> {
    Seq::new(rules.len(), |i: int| rules[i]@)
}

/// A rule for names that start with `text`.
pub open spec fn prefix_rule(text: Seq<char>, folder: Seq<char>, priority: u8) -> RuleModel {
    RuleModel { pattern: PatternModel::Prefix(text), folder, priority }
}

/// A rule for names that contain `text`.
pub open spec fn contains_rule(text: Seq<char>, folder: Seq<char>, priority: u8) -> RuleModel {
    RuleModel { pattern: PatternModel::Contains(text), folder, priority }
}

/// The default rules, in the order in which they are listed.
pub open spec fn default_rules() -> Seq<RuleModel> {
    seq![
        prefix_rule("screenshot"@, "screenshots"@, 100),
        prefix_rule("screen shot"@, "screenshots"@, 100),
        contains_rule("screenshot"@, "screenshots"@, 90),
        prefix_rule("download"@, "downloads"@, 80),
        prefix_rule("invoice"@, "invoices"@, 85),
        contains_rule("invoice"@, "invoices"@, 75),
        prefix_rule("receipt"@, "receipts"@, 85),
        contains_rule("receipt"@, "receipts"@, 75),
        prefix_rule("backup"@, "backups"@, 80),
        contains_rule("backup"@, "backups"@, 70),
        prefix_rule("draft"@, "drafts"@, 80),
        contains_rule(" copy"@, "copies"@, 60),
        contains_rule("_copy"@, "copies"@, 60),
        RuleModel { pattern: PatternModel::DatePattern, folder: "dated_files"@, priority: 30 },
        RuleModel { pattern: PatternModel::BaseName, folder: "grouped"@, priority: 10 },
    ]
}

fn new_prefix_rule(text: &str, folder: &str, priority: u8) -> (r: PatternRule)
    ensures
        r@ == prefix_rule(text@, folder@, priority),
{
    PatternRule {
        pattern_type: PatternType::Prefix(text.to_owned()),
        target_folder: folder.to_owned(),
        priority,
    }
}

fn new_contains_rule(text: &str, folder: &str, priority: u8) -> (r: PatternRule)
    ensures
        r@ == contains_rule(text@, folder@, priority),
{
    PatternRule {
        pattern_type: PatternType::Contains(text.to_owned()),
        target_folder: folder.to_owned(),
        priority,
    }
}

/// The default rules.
pub fn create_pattern_rules() -> (rules: Vec<PatternRule>)
    ensures
        rule_views(rules@) == default_rules(),
{
    let mut rules: Vec<PatternRule> = Vec::new();
    rules.push(new_prefix_rule("screenshot", "screenshots", 100));
    rules.push(new_prefix_rule("screen shot", "screenshots", 100));
    rules.push(new_contains_rule("screenshot", "screenshots", 90));
    rules.push(new_prefix_rule("download", "downloads", 80));
    rules.push(new_prefix_rule("invoice", "invoices", 85));
    rules.push(new_contains_rule("invoice", "invoices", 75));
    rules.push(new_prefix_rule("receipt", "receipts", 85));
    rules.push(new_contains_rule("receipt", "receipts", 75));
    rules.push(new_prefix_rule("backup", "backups", 80));
    rules.push(new_contains_rule("backup", "backups", 70));
    rules.push(new_prefix_rule("draft", "drafts", 80));
    rules.push(new_contains_rule(" copy", "copies", 60));
    rules.push(new_contains_rule("_copy", "copies", 60));
    rules.push(
        PatternRule {
            pattern_type: PatternType::DatePattern,
            target_folder: "dated_files".to_owned(),
            priority: 30,
        },
    );
    rules.push(
        PatternRule {
            pattern_type: PatternType::BaseName,
            target_folder: "grouped".to_owned(),
            priority: 10,
        },
    );
    assert(rule_views(rules@) =~= default_rules());
    rules
}

/// A year, a month and a day, separated by `-` or `_`.
pub open spec fn year_first_pattern() -> Seq<char> {
    "\\d{4}[-_]\\d{2}[-_]\\d{2}"@
}

/// Eight digits in a row.
pub open spec fn compact_pattern() -> Seq<char> {
    "\\d{8}"@
}

/// A day, a month and a year, separated by `-` or `_`.
pub open spec fn year_last_pattern() -> Seq<char> {
    "\\d{2}[-_]\\d{2}[-_]\\d{4}"@
}

/// Three pairs of digits, separated by `-` or `_`.
pub open spec fn short_pattern() -> Seq<char> {
    "\\d{2}[-_]\\d{2}[-_]\\d{2}"@
}

/// Whether one of the four date patterns matches somewhere in `name`.
pub open spec fn has_date(name: Seq<char>) -> bool {
    ||| regex_is_match(year_first_pattern(), name) == Some(true)
    ||| regex_is_match(compact_pattern(), name) == Some(true)
    ||| regex_is_match(year_last_pattern(), name) == Some(true)
    ||| regex_is_match(short_pattern(), name) == Some(true)
}

/// Whether a search found a match: a pattern that could not be searched for
/// counts as not found.
pub fn is_hit(outcome: Option<bool>) -> (r: bool)
    ensures
        r == (outcome == Some(true)),
{
    match outcome {
        Some(found) => found,
        None => false,
    }
}

/// Whether the file name holds a date.
pub fn contains_date_pattern(filename: &str) -> (r: bool)
    ensures
        r == has_date(filename@),
{
    is_hit(is_match("\\d{4}[-_]\\d{2}[-_]\\d{2}", filename)) || is_hit(
        is_match("\\d{8}", filename),
    ) || is_hit(is_match("\\d{2}[-_]\\d{2}[-_]\\d{4}", filename)) || is_hit(
        is_match("\\d{2}[-_]\\d{2}[-_]\\d{2}", filename),
    )
}

/// Whether `c` may stand in a base name: a letter or `_`.
pub open spec fn is_word_char(c: char) -> bool {
    unicode_alphabetic(c) || c == '_'
}

/// Whether every character of `s` may stand in a base name.
pub open spec fn all_word_chars(s: Seq<char>) -> bool {
    forall|i: int| 0 <= i < s.len() ==> is_word_char(#[trigger] s[i])
}

/// The part of a file name before its last `.`, or all of it where it has none.
pub open spec fn before_last_dot(name: Seq<char>) -> Seq<char> {
    match name.index_of_last('.') {
        Some(pos) => name.take(pos),
        None => name,
    }
}

/// The base name that the first `sep` in `stem` ends, if it is one: longer than
/// two bytes and made of letters and `_` only. It is given in lower case.
pub open spec fn base_before(stem: Seq<char>, sep: char) -> Option<Seq<char>> {
    match stem.index_of_first(sep) {
        Some(pos) => if byte_len(stem.take(pos)) > 2 && all_word_chars(stem.take(pos)) {
            Some(lowercase(stem.take(pos)))
        } else {
            None
        },
        None => None,
    }
}

/// The number of leading characters of `s` that may stand in a base name.
pub open spec fn word_prefix_len(s: Seq<char>) -> nat
    decreases s.len(),
{
    if s.len() == 0 || !is_word_char(s[0]) {
        0
    } else {
        1 + word_prefix_len(s.drop_first())
    }
}

/// The base name at the start of a stem that mixes letters and numbers.
pub open spec fn leading_base(stem: Seq<char>) -> Option<Seq<char>> {
    let word = stem.take(word_prefix_len(stem) as int);
    if (exists|i: int| 0 <= i < stem.len() && unicode_alphabetic(#[trigger] stem[i])) && (exists|i: int|
        0 <= i < stem.len() && unicode_numeric(#[trigger] stem[i])) && byte_len(stem) > 4 && byte_len(
        word,
    ) > 2 {
        Some(lowercase(word))
    } else {
        None
    }
}

/// The base name of a file name: what stands before the first `-`, `_`, space or
/// `.` of its stem, tried in this order, or else the letters that a stem of
/// letters and numbers starts with.
pub open spec fn base_name(name: Seq<char>) -> Option<Seq<char>> {
    let stem = before_last_dot(name);
    if base_before(stem, '-') is Some {
        base_before(stem, '-')
    } else if base_before(stem, '_') is Some {
        base_before(stem, '_')
    } else if base_before(stem, ' ') is Some {
        base_before(stem, ' ')
    } else if base_before(stem, '.') is Some {
        base_before(stem, '.')
    } else {
        leading_base(stem)
    }
}

proof fn lemma_word_prefix_len(s: Seq<char>, n: int)
    requires
        0 <= n <= s.len(),
        forall|j: int| 0 <= j < n ==> is_word_char(#[trigger] s[j]),
        n == s.len() || !is_word_char(s[n]),
    ensures
        word_prefix_len(s) == n,
    decreases n,
{
    if n > 0 {
        let t = s.drop_first();
        assert forall|j: int| 0 <= j < n - 1 implies is_word_char(#[trigger] t[j]) by {
            assert(t[j] == s[j + 1]);
        }
        if n < s.len() {
            assert(t[n - 1] == s[n]);
        }
        lemma_word_prefix_len(t, n - 1);
    }
}

fn is_word(c: char) -> (r: bool)
    ensures
        r == is_word_char(c),
{
    c.is_alphabetic() || c == '_'
}

fn word_prefix(v: &Vec<char>, limit: usize) -> (n: usize)
    requires
        limit <= v.len(),
    ensures
        n <= limit,
        n == word_prefix_len(v@.take(limit as int)),
{
    let mut n: usize = 0;
    while n < limit && is_word(v[n])
        invariant
            n <= limit <= v.len(),
            forall|j: int| 0 <= j < n ==> is_word_char(#[trigger] v@[j]),
        decreases limit - n,
    {
        n += 1;
    }
    proof {
        lemma_word_prefix_len(v@.take(limit as int), n as int);
    }
    n
}

fn base_before_exec(stem: &Vec<char>, sep: char) -> (r: Option<String>)
    ensures
        text_of(r) == base_before(stem@, sep),
{
    match first_index(stem, sep) {
        Some(pos) => {
            let words = word_prefix(stem, pos);
            proof {
                let base = stem@.take(pos as int);
                assert(base == stem@.subrange(0, pos as int));
                if words == pos {
                    lemma_all_words(base);
                } else {
                    lemma_not_all_words(base);
                }
            }
            if byte_len_of(stem, 0, pos) > 2 && words == pos {
                Some(lowercase_of(stem, 0, pos))
            } else {
                None
            }
        },
        None => None,
    }
}

proof fn lemma_all_words(s: Seq<char>)
    requires
        word_prefix_len(s) == s.len(),
    ensures
        all_word_chars(s),
    decreases s.len(),
{
    if s.len() > 0 {
        let t = s.drop_first();
        lemma_all_words(t);
        assert forall|i: int| 0 <= i < s.len() implies is_word_char(#[trigger] s[i]) by {
            if i > 0 {
                assert(s[i] == t[i - 1]);
            }
        }
    }
}

proof fn lemma_not_all_words(s: Seq<char>)
    requires
        word_prefix_len(s) < s.len(),
    ensures
        !all_word_chars(s),
    decreases s.len(),
{
    if s.len() > 0 && is_word_char(s[0]) {
        let t = s.drop_first();
        lemma_not_all_words(t);
        let i = choose|i: int| 0 <= i < t.len() && !is_word_char(#[trigger] t[i]);
        assert(s[i + 1] == t[i]);
    }
}

fn has_letter(v: &Vec<char>) -> (r: bool)
    ensures
        r == exists|i: int| 0 <= i < v@.len() && unicode_alphabetic(#[trigger] v@[i]),
{
    let mut i: usize = 0;
    while i < v.len()
        invariant
            i <= v.len(),
            forall|j: int| 0 <= j < i ==> !unicode_alphabetic(#[trigger] v@[j]),
        decreases v.len() - i,
    {
        if v[i].is_alphabetic() {
            return true;
        }
        i += 1;
    }
    false
}

fn has_number(v: &Vec<char>) -> (r: bool)
    ensures
        r == exists|i: int| 0 <= i < v@.len() && unicode_numeric(#[trigger] v@[i]),
{
    let mut i: usize = 0;
    while i < v.len()
        invariant
            i <= v.len(),
            forall|j: int| 0 <= j < i ==> !unicode_numeric(#[trigger] v@[j]),
        decreases v.len() - i,
    {
        if v[i].is_numeric() {
            return true;
        }
        i += 1;
    }
    false
}

/// The base name of a file name, as `base_name` defines it: `invoice` for
/// `invoice-2023-01.pdf`, `backup` for `backup20231201.zip`, none for `simple.txt`.
pub fn extract_base_name(filename: &str) -> (r: Option<String>)
    ensures
        text_of(r) == base_name(filename@),
{
    let name = to_chars(filename);
    let end: usize = match last_index(&name, '.') {
        Some(pos) => pos,
        None => name.len(),
    };
    let mut stem: Vec<char> = Vec::new();
    let mut i: usize = 0;
    while i < end
        invariant
            i <= end <= name.len(),
            stem@ == name@.take(i as int),
        decreases end - i,
    {
        stem.push(name[i]);
        i += 1;
    }
    assert(stem@ == before_last_dot(filename@)) by {
        assert(name@.take(name@.len() as int) == name@);
    }
    let by_dash = base_before_exec(&stem, '-');
    if by_dash.is_some() {
        return by_dash;
    }
    let by_underscore = base_before_exec(&stem, '_');
    if by_underscore.is_some() {
        return by_underscore;
    }
    let by_space = base_before_exec(&stem, ' ');
    if by_space.is_some() {
        return by_space;
    }
    let by_dot = base_before_exec(&stem, '.');
    if by_dot.is_some() {
        return by_dot;
    }
    let words = word_prefix(&stem, stem.len());
    assert(stem@.take(stem@.len() as int) == stem@);
    assert(stem@.subrange(0, stem@.len() as int) == stem@);
    assert(stem@.take(words as int) == stem@.subrange(0, words as int));
    if has_letter(&stem) && has_number(&stem) && byte_len_of(&stem, 0, stem.len()) > 4
        && byte_len_of(&stem, 0, words) > 2 {
        Some(lowercase_of(&stem, 0, words))
    } else {
        None
    }
}

/// The folder that one rule gives to a file name, if the name meets its pattern.
/// A base-name rule gives the base name itself, where it is longer than two
/// bytes and is not the whole name.
pub open spec fn rule_outcome(rule: RuleModel, name: Seq<char>) -> Option<Seq<char>> {
    match rule.pattern {
        PatternModel::Prefix(p) => if has_prefix(lowercase(name), lowercase(p)) {
            Some(rule.folder)
        } else {
            None
        },
        PatternModel::Contains(p) => if has_part(lowercase(name), lowercase(p)) {
            Some(rule.folder)
        } else {
            None
        },
        PatternModel::BaseName => match base_name(name) {
            Some(b) => if byte_len(b) > 2 && b != name {
                Some(b)
            } else {
                None
            },
            None => None,
        },
        PatternModel::DatePattern => if has_date(lowercase(name)) {
            Some(rule.folder)
        } else {
            None
        },
    }
}

/// The folder that the first rule met gives, in the order of the list.
pub open spec fn first_match(rules: Seq<RuleModel>, name: Seq<char>) -> Option<Seq<char>>
    decreases rules.len(),
{
    if rules.len() == 0 {
        None
    } else {
        match rule_outcome(rules[0], name) {
            Some(folder) => Some(folder),
            None => first_match(rules.drop_first(), name),
        }
    }
}

fn apply_rule(rule: &PatternRule, filename: &str, lowered: &Vec<char>) -> (r: Option<String>)
    requires
        lowered@ == lowercase(filename@),
    ensures
        text_of(r) == rule_outcome(rule@, filename@),
{
    match &rule.pattern_type {
        PatternType::Prefix(prefix) => {
            let p = to_chars(prefix.as_str().to_lowercase().as_str());
            if starts_with(lowered, &p) {
                Some(rule.target_folder.clone())
            } else {
                None
            }
        },
        PatternType::Contains(part) => {
            let p = to_chars(part.as_str().to_lowercase().as_str());
            if contains_part(lowered, &p) {
                Some(rule.target_folder.clone())
            } else {
                None
            }
        },
        PatternType::BaseName => {
            match extract_base_name(filename) {
                Some(base) => {
                    let differs = !(base.as_str().to_owned() == filename.to_owned());
                    if base.as_str().as_bytes().len() > 2 && differs {
                        Some(base)
                    } else {
                        None
                    }
                },
                None => None,
            }
        },
        PatternType::DatePattern => {
            let text = filename.to_lowercase();
            if contains_date_pattern(text.as_str()) {
                Some(rule.target_folder.clone())
            } else {
                None
            }
        },
    }
}

/// The folder for a file name: that of the first rule in `rules` that the name
/// meets, or none where it meets no rule.
pub fn find_matching_pattern(filename: &str, rules: &Vec<PatternRule>) -> (r: Option<String>)
    ensures
        text_of(r) == first_match(rule_views(rules@), filename@),
{
    let lowered = to_chars(filename.to_lowercase().as_str());
    let ghost all = rule_views(rules@);
    assert(all.skip(0) == all);
    let mut i: usize = 0;
    while i < rules.len()
        invariant
            i <= rules.len(),
            all == rule_views(rules@),
            lowered@ == lowercase(filename@),
            first_match(all, filename@) == first_match(all.skip(i as int), filename@),
        decreases rules.len() - i,
    {
        let outcome = apply_rule(&rules[i], filename, &lowered);
        proof {
            let rest = all.skip(i as int);
            assert(rest[0] == rules@[i as int]@);
            assert(rest.drop_first() == all.skip(i + 1));
        }
        if outcome.is_some() {
            return outcome;
        }
        i += 1;
    }
    None
}

/// The priority of each rule, by position.
pub open spec fn priorities(rules: Seq<RuleModel>) -> Seq<usize> {
    Seq::new(rules.len(), |i: int| rules[i].priority as usize)
}

/// The rules in the order in which they are tried: the highest priority first,
/// and rules of equal priority in the order of the list.
pub open spec fn by_priority(rules: Seq<RuleModel>) -> Seq<RuleModel> {
    Seq::new(rules.len(), |i: int| rules[ranking(priorities(rules))[i] as int])
}

fn copy_rule(rule: &PatternRule) -> (copy: PatternRule)
    ensures
        copy@ == rule@,
{
    let pattern_type = match &rule.pattern_type {
        PatternType::Prefix(p) => PatternType::Prefix(p.clone()),
        PatternType::Contains(p) => PatternType::Contains(p.clone()),
        PatternType::BaseName => PatternType::BaseName,
        PatternType::DatePattern => PatternType::DatePattern,
    };
    PatternRule { pattern_type, target_folder: rule.target_folder.clone(), priority: rule.priority }
}

/// The rules in the order in which they are tried.
pub fn sort_by_priority(rules: &Vec<PatternRule>) -> (sorted: Vec<PatternRule>)
    ensures
        rule_views(sorted@) == by_priority(rule_views(rules@)),
{
    let ghost all = rule_views(rules@);
    let mut keys: Vec<usize> = Vec::new();
    let mut i: usize = 0;
    while i < rules.len()
        invariant
            i <= rules.len(),
            all == rule_views(rules@),
            keys@.len() == i,
            forall|j: int| 0 <= j < i ==> keys@[j] == all[j].priority as usize,
        decreases rules.len() - i,
    {
        assert(all[i as int] == rules@[i as int]@);
        keys.push(rules[i].priority as usize);
        i += 1;
    }
    assert(keys@ =~= priorities(all));
    let order = rank_descending(&keys);
    let mut sorted: Vec<PatternRule> = Vec::new();
    let mut i: usize = 0;
    while i < order.len()
        invariant
            i <= order.len(),
            all == rule_views(rules@),
            order@ == ranking(priorities(all)),
            is_ranking(priorities(all), order@),
            sorted@.len() == i,
            forall|j: int| 0 <= j < i ==> (#[trigger] sorted@[j])@ == all[order@[j] as int],
        decreases order.len() - i,
    {
        assert(all[order@[i as int] as int] == rules@[order@[i as int] as int]@);
        sorted.push(copy_rule(&rules[order[i]]));
        i += 1;
    }
    assert(rule_views(sorted@) =~= by_priority(all));
    sorted
}

/// The folder for an extension where no rule is met.
pub open spec fn fallback_of(e: Seq<char>) -> Seq<char> {
    if e == "jpg"@ || e == "jpeg"@ || e == "png"@ || e == "gif"@ || e == "bmp"@ || e == "svg"@ || e
        == "webp"@ {
        "images"@
    } else if e == "mp4"@ || e == "avi"@ || e == "mkv"@ || e == "mov"@ || e == "wmv"@ || e
        == "flv"@ || e == "webm"@ {
        "videos"@
    } else if e == "mp3"@ || e == "wav"@ || e == "flac"@ || e == "aac"@ || e == "ogg"@ || e
        == "wma"@ || e == "m4a"@ {
        "audio"@
    } else if e == "pdf"@ || e == "doc"@ || e == "docx"@ || e == "txt"@ || e == "rtf"@ || e
        == "odt"@ {
        "documents"@
    } else if e == "zip"@ || e == "rar"@ || e == "7z"@ || e == "tar"@ || e == "gz"@ {
        "archives"@
    } else {
        "uncategorized"@
    }
}

/// The folder for a lower-cased extension where no rule is met.
pub fn fallback_category(e: &str) -> (category: String)
    ensures
        category@ == fallback_of(e@),
{
    if same_text(e, "jpg") || same_text(e, "jpeg") || same_text(e, "png") || same_text(e, "gif")
        || same_text(e, "bmp") || same_text(e, "svg") || same_text(e, "webp") {
        "images".to_owned()
    } else if same_text(e, "mp4") || same_text(e, "avi") || same_text(e, "mkv") || same_text(
        e,
        "mov",
    ) || same_text(e, "wmv") || same_text(e, "flv") || same_text(e, "webm") {
        "videos".to_owned()
    } else if same_text(e, "mp3") || same_text(e, "wav") || same_text(e, "flac") || same_text(
        e,
        "aac",
    ) || same_text(e, "ogg") || same_text(e, "wma") || same_text(e, "m4a") {
        "audio".to_owned()
    } else if same_text(e, "pdf") || same_text(e, "doc") || same_text(e, "docx") || same_text(
        e,
        "txt",
    ) || same_text(e, "rtf") || same_text(e, "odt") {
        "documents".to_owned()
    } else if same_text(e, "zip") || same_text(e, "rar") || same_text(e, "7z") || same_text(
        e,
        "tar",
    ) || same_text(e, "gz") {
        "archives".to_owned()
    } else {
        "uncategorized".to_owned()
    }
}

/// Where a file goes, and why.
#[derive(Debug, Clone, PartialEq, Eq)]
pub enum Placement {
    /// To the folder of the first rule that its name meets.
    Pattern(String),
    /// To the folder of its extension, as its name meets no rule.
    Fallback(String),
}

/// The mathematical value of a `Placement`.
pub enum PlacementModel {
    Pattern(Seq<char>),
    Fallback(Seq<char>),
}

/// The value of an optional placement.
pub open spec fn placement_view(p: Option<Placement>) -> Option<PlacementModel> {
    match p {
        Some(Placement::Pattern(folder)) => Some(PlacementModel::Pattern(folder@)),
        Some(Placement::Fallback(folder)) => Some(PlacementModel::Fallback(folder@)),
        None => None,
    }
}

/// Where a file goes under the rules: nowhere for a system file; to the folder
/// of the first rule met; else to the folder of its extension.
pub open spec fn placement(rules: Seq<RuleModel>, name: Seq<char>) -> Option<PlacementModel> {
    if is_system_file(name) {
        None
    } else {
        match first_match(rules, name) {
            Some(folder) => Some(PlacementModel::Pattern(folder)),
            None => Some(PlacementModel::Fallback(fallback_of(lowered_extension(name)))),
        }
    }
}

/// Where a file goes under the rules, which are tried in the order given.
pub fn place_by_filename(filename: &str, rules: &Vec<PatternRule>) -> (r: Option<Placement>)
    ensures
        placement_view(r) == placement(rule_views(rules@), filename@),
{
    if should_skip_file(filename) {
        return None;
    }
    match find_matching_pattern(filename, rules) {
        Some(folder) => Some(Placement::Pattern(folder)),
        None => {
            let ext = lowered_extension_of(filename);
            Some(Placement::Fallback(fallback_category(ext.as_str())))
        },
    }
}

} // verus!
