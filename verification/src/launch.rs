//! Assembling the search path under which a located program is started.

use vstd::prelude::*;

verus! {

/// The character that separates the directories of a search path.
pub const LIST_SEPARATOR: char = ':';

/// The parts written one after the other with a colon between any two.
pub open spec fn colon_joined(parts: Seq<Seq<char>>) -> Seq<char>
    decreases parts.len(),
{
    if parts.len() == 0 {
        Seq::empty()
    } else if parts.len() == 1 {
        parts[0]
    } else {
        colon_joined(parts.drop_last()) + seq![LIST_SEPARATOR] + parts.last()
    }
}

/// The search path for a program found in `dirs`: every directory of `dirs`
/// in order, then the search path that the process inherited, if it has one.
pub open spec fn search_path(dirs: Seq<Seq<char>>, inherited: Option<Seq<char>>) -> Seq<char> {
    match inherited {
        Some(path) => colon_joined(dirs.push(path)),
        None => colon_joined(dirs),
    }
}

/// The collected directories come first: with at least one directory and an
/// inherited search path, the result is the directories, a colon, and the
/// inherited path.
pub proof fn lemma_collected_dirs_come_first(dirs: Seq<Seq<char>>, inherited: Seq<char>)
    requires
        dirs.len() > 0,
    ensures
        search_path(dirs, Some(inherited)) == colon_joined(dirs) + seq![LIST_SEPARATOR] + inherited,
{
    assert(dirs.push(inherited).drop_last() == dirs);
}

/// Without collected directories the search path is the inherited one, and
/// empty if there is none.
pub proof fn lemma_search_path_without_dirs(inherited: Seq<char>)
    ensures
        search_path(Seq::empty(), Some(inherited)) == inherited,
        search_path(Seq::empty(), None) == Seq::<char>::empty(),
{
}

/// Builds the search path for a program found in `paths`. `inherited` is the
/// search path of the current process, or `None` if it has none.
pub fn make_path_env(paths: &Vec<String>, inherited: Option<&str>) -> (r: String)
    ensures
        r@ == search_path(
            paths.deep_view(),
            match inherited {
                Some(path) => Some(path@),
                None => None,
            },
        ),
{
    let mut r = String::new();
    let mut i: usize = 0;
    while i < paths.len()
        invariant
            i <= paths.len(),
            r@ == colon_joined(paths.deep_view().take(i as int)),
        decreases paths.len() - i,
    {
        let ghost upto = paths.deep_view().take(i + 1);
        assert(upto.drop_last() == paths.deep_view().take(i as int));
        assert(upto.last() == paths[i as int]@);
        if i > 0 {
            proof {
                reveal_strlit(":");
            }
            r.append(":");
            assert(r@ == colon_joined(upto.drop_last()) + seq![LIST_SEPARATOR]);
        }
        r.append(paths[i].as_str());
        i += 1;
    }
    assert(paths.deep_view().take(paths.len() as int) == paths.deep_view());
    if let Some(path) = inherited {
        let ghost all = paths.deep_view().push(path@);
        assert(all.drop_last() == paths.deep_view());
        if paths.len() > 0 {
            proof {
                reveal_strlit(":");
            }
            r.append(":");
            assert(r@ == colon_joined(paths.deep_view()) + seq![LIST_SEPARATOR]);
        }
        r.append(path);
    }
    r
}

} // verus!
