//! Joining a directory and a name into one path.

use vstd::prelude::*;

verus! {

/// The separator between the components of a path.
pub const SEPARATOR: char = '/';

/// The path that names `name` inside `dir`.
///
/// An absolute `name` (one that starts with the separator) stands for itself.
/// Otherwise `name` is appended to `dir`, with a separator in between unless
/// `dir` is empty or already ends with one.
pub open spec fn joined(dir: Seq<char>, name: Seq<char>) -> Seq<char> {
    if name.len() > 0 && name[0] == SEPARATOR {
        name
    } else if dir.len() > 0 && dir.last() != SEPARATOR {
        dir + seq![SEPARATOR] + name
    } else {
        dir + name
    }
}

/// Joins `dir` and `name` into one path.
pub fn join(dir: &str, name: &str) -> (r: String)
    ensures
        r@ == joined(dir@, name@),
{
    let name_len: usize = name.unicode_len();
    if name_len > 0 && name.get_char(0) == SEPARATOR {
        return name.to_owned();
    }
    let dir_len: usize = dir.unicode_len();
    let mut r = dir.to_owned();
    if dir_len > 0 && dir.get_char(dir_len - 1) != SEPARATOR {
        proof {
            reveal_strlit("/");
        }
        r.append("/");
        assert(r@ == dir@ + seq![SEPARATOR]);
    }
    r.append(name);
    r
}

} // verus!
