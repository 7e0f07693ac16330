//! The parts of a file name: its stem and its extension.
//!
//! A file name is the last component of a path, as text. It is split at its last
//! `.`, unless that `.` is its first character or the name is `..`.

use crate::chars::{last_index, substring, text_of, to_chars};
use vstd::prelude::*;

verus! {

/// Where a file name splits into stem and extension: the position of its last
/// `.`, if it has one that is not its first character and the name is not `..`.
pub open spec fn split_point(name: Seq<char>) -> Option<int> {
    match name.index_of_last('.') {
        Some(pos) => if pos > 0 && name != seq!['.', '.'] {
            Some(pos)
        } else {
            None
        },
        None => None,
    }
}

/// The file name without its extension.
pub open spec fn file_stem(name: Seq<char>) -> Seq<char> {
    match split_point(name) {
        Some(pos) => name.take(pos),
        None => name,
    }
}

/// The extension of a file name, without the `.`.
pub open spec fn extension(name: Seq<char>) -> Option<Seq<char>> {
    match split_point(name) {
        Some(pos) => Some(name.skip(pos + 1)),
        None => None,
    }
}

fn split_point_of(name: &Vec<char>) -> (r: Option<usize>)
    ensures
        match r {
            Some(pos) => pos < name.len() && split_point(name@) == Some(pos as int),
            None => split_point(name@) is None,
        },
{
    match last_index(name, '.') {
        Some(pos) => {
            let dots = name.len() == 2 && name[0] == '.' && name[1] == '.';
            proof {
                if dots {
                    assert(name@ =~= seq!['.', '.']);
                } else if name.len() == 2 {
                    assert(seq!['.', '.'][0] == '.' && seq!['.', '.'][1] == '.');
                }
            }
            if pos > 0 && !dots {
                Some(pos)
            } else {
                None
            }
        },
        None => None,
    }
}

/// The file name without its extension: `report` for `report.pdf`, `.profile`
/// for `.profile`, `archive.tar` for `archive.tar.gz`.
pub fn file_stem_of(name: &str) -> (stem: String)
    ensures
        stem@ == file_stem(name@),
{
    let chars = to_chars(name);
    match split_point_of(&chars) {
        Some(pos) => {
            assert(chars@.subrange(0, pos as int) == chars@.take(pos as int));
            substring(&chars, 0, pos)
        },
        None => name.to_owned(),
    }
}

/// The extension of a file name, if it has one: `pdf` for `report.pdf`, none
/// for `.profile`.
pub fn extension_of(name: &str) -> (ext: Option<String>)
    ensures
        text_of(ext) == extension(name@),
{
    let chars = to_chars(name);
    match split_point_of(&chars) {
        Some(pos) => {
            assert(chars@.subrange(pos + 1, chars@.len() as int) == chars@.skip(pos + 1));
            Some(substring(&chars, pos + 1, chars.len()))
        },
        None => None,
    }
}

/// Whether a file name is that of a hidden file: it starts with `.`.
pub open spec fn is_hidden_name(name: Seq<char>) -> bool {
    name.len() > 0 && name[0] == '.'
}

/// Whether the file is hidden and therefore not looked at.
pub fn is_hidden(name: &str) -> (r: bool)
    ensures
        r == is_hidden_name(name@),
{
    let chars = to_chars(name);
    chars.len() > 0 && chars[0] == '.'
}

} // verus!
