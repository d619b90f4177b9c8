//! Collecting the directories in which a built package's programs are sought.
//!
//! The list starts with the package's own `bin` directory and goes on with
//! the `bin` directory of every input that the package propagates, in the
//! order in which its manifest names them. A directory is listed only if it
//! exists when it is looked at.

use crate::path::{join, joined};
use crate::probe::is_directory;
use crate::text::{split_whitespace, words};
use vstd::prelude::*;

verus! {

/// The name of the directory that holds a package's programs.
pub open spec fn bin_name() -> Seq<char> {
    seq!['b', 'i', 'n']
}

/// Where a package's manifest of propagated inputs lies, relative to the
/// package's root.
pub open spec fn manifest_name() -> Seq<char> {
    "nix-support/propagated-build-inputs"@
}

/// The `bin` directory under `root`.
pub open spec fn bin_dir(root: Seq<char>) -> Seq<char> {
    joined(root, bin_name())
}

/// The `bin` directories of the inputs that a manifest with these contents
/// names, one for each of its words, in their order.
pub open spec fn propagated_dirs(contents: Seq<char>) -> Seq<Seq<char>> {
    words(contents).map_values(|root: Seq<char>| bin_dir(root))
}

/// Every directory that may be searched for the programs of the package
/// built at `store`: its own `bin`, then those of the manifest. A package
/// without a manifest propagates nothing.
pub open spec fn candidate_dirs(store: Seq<char>, manifest: Option<Seq<char>>) -> Seq<Seq<char>> {
    match manifest {
        Some(contents) => seq![bin_dir(store)] + propagated_dirs(contents),
        None => seq![bin_dir(store)],
    }
}

/// The items whose flag is set, in their order. An item without a flag is
/// left out.
pub open spec fn kept(items: Seq<Seq<char>>, keep: Seq<bool>) -> Seq<Seq<char>>
    decreases items.len(),
{
    if items.len() == 0 {
        Seq::empty()
    } else if items.len() <= keep.len() && keep[items.len() - 1] {
        kept(items.drop_last(), keep).push(items.last())
    } else {
        kept(items.drop_last(), keep)
    }
}

/// How many of the first `n` flags are set.
pub open spec fn count_set(keep: Seq<bool>, n: int) -> int
    decreases n,
{
    if n <= 0 {
        0
    } else if n <= keep.len() && keep[n - 1] {
        count_set(keep, n - 1) + 1
    } else {
        count_set(keep, n - 1)
    }
}

/// Under a root that is not empty and does not end in a separator, the `bin`
/// directory is the root, a separator and `bin`.
pub proof fn lemma_bin_dir_of_plain_root(root: Seq<char>)
    requires
        root.len() > 0,
        root.last() != crate::path::SEPARATOR,
    ensures
        bin_dir(root) == root + seq!['/', 'b', 'i', 'n'],
{
    assert(root + seq![crate::path::SEPARATOR] + bin_name() == root + seq!['/', 'b', 'i', 'n']);
}

/// A package whose own `bin` exists and whose manifest names two inputs
/// that both have a `bin` is searched in its own `bin`, then in that of the
/// first input, then in that of the second.
pub proof fn lemma_two_inputs_in_manifest_order(
    store: Seq<char>,
    manifest: Seq<char>,
    first: Seq<char>,
    second: Seq<char>,
)
    requires
        words(manifest) == seq![first, second],
    ensures
        kept(candidate_dirs(store, Some(manifest)), seq![true, true, true]) == seq![
            bin_dir(store),
            bin_dir(first),
            bin_dir(second),
        ],
{
    let all = candidate_dirs(store, Some(manifest));
    assert(all == seq![bin_dir(store), bin_dir(first), bin_dir(second)]);
    lemma_kept_all(all, seq![true, true, true]);
}

/// Only the flags that stand beside an item count.
pub proof fn lemma_kept_ignores_other_flags(items: Seq<Seq<char>>, keep: Seq<bool>, other: Seq<bool>)
    requires
        forall|i: int|
            0 <= i < items.len() ==> (i < keep.len() && keep[i]) == (i < other.len() && other[i]),
    ensures
        kept(items, keep) == kept(items, other),
    decreases items.len(),
{
    if items.len() > 0 {
        lemma_kept_ignores_other_flags(items.drop_last(), keep, other);
    }
}

/// Keeping from two lists laid end to end is keeping from each and laying
/// the results end to end.
pub proof fn lemma_kept_concat(
    front: Seq<Seq<char>>,
    front_keep: Seq<bool>,
    back: Seq<Seq<char>>,
    back_keep: Seq<bool>,
)
    requires
        front_keep.len() == front.len(),
    ensures
        kept(front + back, front_keep + back_keep) == kept(front, front_keep) + kept(
            back,
            back_keep,
        ),
    decreases back.len(),
{
    let keep = front_keep + back_keep;
    if back.len() == 0 {
        assert(front + back == front);
        lemma_kept_ignores_other_flags(front, keep, front_keep);
        assert(kept(front, front_keep) + kept(back, back_keep) == kept(front, front_keep));
    } else {
        let all = front + back;
        assert(all.drop_last() == front + back.drop_last());
        assert(all.last() == back.last());
        lemma_kept_concat(front, front_keep, back.drop_last(), back_keep);
        if back.len() <= back_keep.len() {
            assert(keep[all.len() - 1] == back_keep[back.len() - 1]);
        }
        if back.len() <= back_keep.len() && back_keep[back.len() - 1] {
            assert(kept(front, front_keep) + kept(back.drop_last(), back_keep).push(back.last())
                == (kept(front, front_keep) + kept(back.drop_last(), back_keep)).push(back.last()));
        }
    }
}

/// When every item's flag is set, the list comes out as it went in.
pub proof fn lemma_kept_all(items: Seq<Seq<char>>, keep: Seq<bool>)
    requires
        items.len() <= keep.len(),
        forall|i: int| 0 <= i < items.len() ==> keep[i],
    ensures
        kept(items, keep) == items,
    decreases items.len(),
{
    if items.len() > 0 {
        lemma_kept_all(items.drop_last(), keep);
        assert(items.drop_last().push(items.last()) == items);
    }
}

/// As many items are kept as flags are set beside them.
pub proof fn lemma_kept_len(items: Seq<Seq<char>>, keep: Seq<bool>)
    ensures
        kept(items, keep).len() == count_set(keep, items.len() as int),
    decreases items.len(),
{
    if items.len() > 0 {
        lemma_kept_len(items.drop_last(), keep);
    }
}

/// The count of set flags grows with the number of flags counted, and grows
/// past every set flag.
pub proof fn lemma_count_set_grows(keep: Seq<bool>, i: int, j: int)
    requires
        0 <= i <= j,
    ensures
        count_set(keep, i) <= count_set(keep, j),
        i < j && i < keep.len() && keep[i] ==> count_set(keep, i) < count_set(keep, j),
    decreases j - i,
{
    if i < j {
        lemma_count_set_grows(keep, i, j - 1);
    }
}

/// A flagged item is kept, and stands behind exactly the flagged items that
/// stood before it: its place is the number of set flags before its own.
/// So no two kept items change their order.
pub proof fn lemma_kept_keeps_order(items: Seq<Seq<char>>, keep: Seq<bool>, i: int)
    requires
        0 <= i < items.len(),
        i < keep.len(),
        keep[i],
    ensures
        0 <= count_set(keep, i) < kept(items, keep).len(),
        kept(items, keep)[count_set(keep, i)] == items[i],
    decreases items.len(),
{
    let rest = items.drop_last();
    lemma_kept_len(rest, keep);
    if i < items.len() - 1 {
        lemma_kept_keeps_order(rest, keep, i);
    }
}

/// Every kept item is an item whose flag is set: nothing is added, and no
/// item without a set flag gets through.
pub proof fn lemma_kept_only_flagged(items: Seq<Seq<char>>, keep: Seq<bool>, p: int)
    requires
        0 <= p < kept(items, keep).len(),
    ensures
        exists|i: int|
            0 <= i < items.len() && i < keep.len() && keep[i] && #[trigger] items[i] == kept(
                items,
                keep,
            )[p],
    decreases items.len(),
{
    let rest = items.drop_last();
    let last = items.len() - 1;
    if items.len() <= keep.len() && keep[last] && p == kept(rest, keep).len() {
        assert(items[last] == kept(items, keep)[p]);
    } else {
        lemma_kept_only_flagged(rest, keep, p);
        let i = choose|i: int|
            0 <= i < rest.len() && i < keep.len() && keep[i] && #[trigger] rest[i] == kept(
                rest,
                keep,
            )[p];
        assert(items[i] == kept(items, keep)[p]);
    }
}

/// When the flags are what `holds` says of the items, the kept items are
/// the items of which `holds` is true.
pub proof fn lemma_kept_is_filter(
    items: Seq<Seq<char>>,
    keep: Seq<bool>,
    holds: spec_fn(Seq<char>) -> bool,
)
    requires
        keep.len() == items.len(),
        forall|i: int| 0 <= i < items.len() ==> keep[i] == holds(#[trigger] items[i]),
    ensures
        kept(items, keep) == items.filter(holds),
    decreases items.len(),
{
    reveal(Seq::filter);
    if items.len() > 0 {
        let rest = items.drop_last();
        assert forall|i: int| 0 <= i < rest.len() implies keep.drop_last()[i] == holds(
            #[trigger] rest[i],
        ) by {
            assert(rest[i] == items[i]);
        }
        lemma_kept_is_filter(rest, keep.drop_last(), holds);
        lemma_kept_ignores_other_flags(rest, keep, keep.drop_last());
        assert(keep[items.len() - 1] == holds(items[items.len() - 1]));
    }
}

/// A package without a manifest has the candidates of a package whose
/// manifest is empty or holds nothing but whitespace.
pub proof fn lemma_absent_manifest_is_blank(store: Seq<char>, blank: Seq<char>)
    requires
        forall|i: int| 0 <= i < blank.len() ==> crate::text::is_space(blank[i]),
    ensures
        candidate_dirs(store, Some(blank)) == candidate_dirs(store, None),
{
    crate::text::lemma_words_of_blank(blank);
    assert(propagated_dirs(blank) == Seq::<Seq<char>>::empty());
}

/// Builds the path of the `bin` directory under `root`.
pub fn bin_path(root: &str) -> (r: String)
    ensures
        r@ == bin_dir(root@),
{
    proof {
        reveal_strlit("bin");
    }
    assert("bin"@ == bin_name());
    join(root, "bin")
}

/// Builds the path of the manifest of the package built at `store`.
pub fn manifest_path(store: &str) -> (r: String)
    ensures
        r@ == joined(store@, manifest_name()),
{
    join(store, "nix-support/propagated-build-inputs")
}

/// Reads the `bin` directories off a manifest's contents, whether or not
/// they exist.
pub fn propagated_bin_paths(contents: &str) -> (r: Vec<String>)
    ensures
        r.deep_view() == propagated_dirs(contents@),
{
    let roots = split_whitespace(contents);
    let mut r: Vec<String> = Vec::new();
    let mut i: usize = 0;
    while i < roots.len()
        invariant
            roots.deep_view() == words(contents@),
            i <= roots.len(),
            r.len() == i,
            forall|j: int| 0 <= j < i ==> (#[trigger] r[j])@ == bin_dir(roots[j]@),
        decreases roots.len() - i,
    {
        r.push(bin_path(roots[i].as_str()));
        i += 1;
    }
    assert(r.deep_view() =~= propagated_dirs(contents@)) by {
        assert forall|j: int| 0 <= j < roots.len() implies roots[j]@ == words(contents@)[j] by {
            assert(roots.deep_view()[j] == roots[j]@);
        }
    }
    r
}

/// Keeps the items whose flag is set, in their order.
pub fn keep_flagged(items: &Vec<String>, keep: &[bool]) -> (r: Vec<String>)
    ensures
        r.deep_view() == kept(items.deep_view(), keep@),
{
    let mut r: Vec<String> = Vec::new();
    let mut i: usize = 0;
    while i < items.len()
        invariant
            i <= items.len(),
            r.deep_view() == kept(items.deep_view().take(i as int), keep@),
        decreases items.len() - i,
    {
        let ghost before = r.deep_view();
        let ghost upto = items.deep_view().take(i + 1);
        assert(upto.drop_last() == items.deep_view().take(i as int));
        assert(upto.last() == items[i as int]@);
        if i < keep.len() && keep[i] {
            r.push(items[i].clone());
            assert(r.deep_view() == before.push(items[i as int]@));
        }
        i += 1;
    }
    assert(items.deep_view().take(items.len() as int) == items.deep_view());
    r
}

/// What a manifest read from disk holds, as a sequence of characters.
pub open spec fn contents_of(manifest: Option<&str>) -> Option<Seq<char>> {
    match manifest {
        Some(contents) => Some(contents@),
        None => None,
    }
}

/// Builds every directory that may be searched for the programs of the
/// package built at `store`, whether or not it exists. `manifest` holds the
/// contents of the package's manifest, or `None` if it has none that can be
/// read.
pub fn candidate_paths(store: &str, manifest: Option<&str>) -> (r: Vec<String>)
    ensures
        r.deep_view() == candidate_dirs(store@, contents_of(manifest)),
{
    let mut r: Vec<String> = Vec::new();
    r.push(bin_path(store));
    if let Some(contents) = manifest {
        let mut more = propagated_bin_paths(contents);
        let ghost inputs = more.deep_view();
        r.append(&mut more);
        assert(r.deep_view() =~= seq![bin_dir(store@)] + inputs);
    } else {
        assert(r.deep_view() =~= seq![bin_dir(store@)]);
    }
    r
}

/// Asks of each path whether it names an existing directory.
fn existing_directories(paths: &Vec<String>) -> (r: Vec<bool>)
    ensures
        r.len() == paths.len(),
{
    let mut r: Vec<bool> = Vec::new();
    let mut i: usize = 0;
    while i < paths.len()
        invariant
            i <= paths.len(),
            r.len() == i,
        decreases paths.len() - i,
    {
        r.push(is_directory(paths[i].as_str()));
        i += 1;
    }
    r
}

/// Lists the `bin` directories of the inputs that a manifest with these
/// contents names, leaving out those that do not exist.
///
/// Which directories exist is for the file system to say, so the result is
/// stated for whatever it answers: it is `keep_flagged` of
/// `propagated_bin_paths`, with one flag for each directory.
pub fn parse_propagated_build_inputs(contents: &str) -> (r: Vec<String>)
    ensures
        exists|dirs: Seq<bool>|
            dirs.len() == propagated_dirs(contents@).len() && r.deep_view() == #[trigger] kept(
                propagated_dirs(contents@),
                dirs,
            ),
{
    let all = propagated_bin_paths(contents);
    let dirs = existing_directories(&all);
    let r = keep_flagged(&all, dirs.as_slice());
    assert(r.deep_view() == kept(propagated_dirs(contents@), dirs@));
    r
}

/// Lists the directories to search for the programs of the package built at
/// `store`: its own `bin` directory, then those of its propagated inputs,
/// leaving out those that do not exist. `manifest` holds the contents of the
/// package's manifest, or `None` if it has none that can be read.
///
/// Which directories exist is for the file system to say, so the result is
/// stated for whatever it answers: it is `keep_flagged` of
/// `candidate_paths`, with one flag for each directory.
pub fn get_binpaths(store: &str, manifest: Option<&str>) -> (r: Vec<String>)
    ensures
        exists|dirs: Seq<bool>|
            dirs.len() == candidate_dirs(store@, contents_of(manifest)).len() && r.deep_view()
                == #[trigger] kept(candidate_dirs(store@, contents_of(manifest)), dirs),
{
    let all = candidate_paths(store, manifest);
    let dirs = existing_directories(&all);
    let r = keep_flagged(&all, dirs.as_slice());
    assert(r.deep_view() == kept(candidate_dirs(store@, contents_of(manifest)), dirs@));
    r
}

} // verus!
