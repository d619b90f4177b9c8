//! Locating a program in a list of directories.
//!
//! The directories are tried in the order of the list, and the first one in
//! which the program is a file that the current process may execute decides.
//! A file of that name which may not be executed is passed over.

use crate::path::{join, joined};
use crate::probe::is_executable;
use crate::search::{
    advance, first_match, lemma_first_match, lemma_found_at_first_success, lemma_next_step_cases,
    lemma_run_is_first_match, next_step, run, Step, StepView,
};
use vstd::prelude::*;

verus! {

/// Where `program` would lie in each of `paths`, in their order.
pub open spec fn program_candidates(paths: Seq<Seq<char>>, program: Seq<char>) -> Seq<Seq<char>> {
    paths.map_values(|dir: Seq<char>| joined(dir, program))
}

/// The path at which `program` is located in `paths` when `executable` says
/// which paths name a file that may be executed, or `None` when it is
/// located nowhere: the end of the search through the directories in which
/// every probe is answered by `executable`.
pub open spec fn located(
    paths: Seq<Seq<char>>,
    program: Seq<char>,
    executable: spec_fn(Seq<char>) -> bool,
) -> Option<Seq<char>> {
    run(program_candidates(paths, program), executable)
}

/// A program is located in the first directory in which it may be executed,
/// whatever the directories behind that one hold.
pub proof fn lemma_located_in_first_directory(
    paths: Seq<Seq<char>>,
    program: Seq<char>,
    executable: spec_fn(Seq<char>) -> bool,
    k: int,
)
    requires
        0 <= k < paths.len(),
        executable(joined(paths[k], program)),
        forall|j: int| 0 <= j < k ==> !executable(joined(#[trigger] paths[j], program)),
    ensures
        located(paths, program, executable) == Some(joined(paths[k], program)),
{
    let all = program_candidates(paths, program);
    lemma_run_is_first_match(all, executable);
    lemma_first_match(all, executable);
    assert(all[k] == joined(paths[k], program));
    match first_match(all, executable) {
        Some(c) => {
            let m = choose|m: int|
                0 <= m < all.len() && #[trigger] all[m] == c && executable(c) && forall|j: int|
                    0 <= j < m ==> !executable(#[trigger] all[j]);
            if m < k {
                assert(all[m] == joined(paths[m], program));
            } else if m > k {
                assert(!executable(all[k]));
            }
        },
        None => {
            assert(!executable(all[k]));
        },
    }
}

/// A program that may be executed in none of the directories is located
/// nowhere.
pub proof fn lemma_located_nowhere(
    paths: Seq<Seq<char>>,
    program: Seq<char>,
    executable: spec_fn(Seq<char>) -> bool,
)
    requires
        forall|j: int| 0 <= j < paths.len() ==> !executable(joined(#[trigger] paths[j], program)),
    ensures
        located(paths, program, executable).is_none(),
{
    let all = program_candidates(paths, program);
    lemma_run_is_first_match(all, executable);
    lemma_first_match(all, executable);
    if let Some(c) = first_match(all, executable) {
        let m = choose|m: int|
            0 <= m < all.len() && #[trigger] all[m] == c && executable(c) && forall|j: int|
                0 <= j < m ==> !executable(#[trigger] all[j]);
        assert(all[m] == joined(paths[m], program));
    }
}

/// The program in the first directory that holds it as an executable file is
/// found: a directory where it is missing or may not be executed is passed
/// over, and no later directory is preferred.
pub proof fn lemma_first_executable_wins(
    paths: Seq<Seq<char>>,
    program: Seq<char>,
    outcomes: Seq<bool>,
    k: int,
)
    requires
        0 <= k < paths.len(),
        k < outcomes.len(),
        outcomes[k],
        forall|j: int| 0 <= j < k ==> !outcomes[j],
    ensures
        next_step(program_candidates(paths, program), outcomes) == StepView::Found(
            joined(paths[k], program),
        ),
{
    lemma_found_at_first_success(program_candidates(paths, program), outcomes, k);
}

/// Builds the path of `program` in each of `paths`.
pub fn program_paths(paths: &Vec<String>, program: &str) -> (r: Vec<String>)
    ensures
        r.deep_view() == program_candidates(paths.deep_view(), program@),
{
    let mut r: Vec<String> = Vec::new();
    let mut i: usize = 0;
    while i < paths.len()
        invariant
            i <= paths.len(),
            r.len() == i,
            forall|j: int| 0 <= j < i ==> (#[trigger] r[j])@ == joined(paths[j]@, program@),
        decreases paths.len() - i,
    {
        r.push(join(paths[i].as_str(), program));
        i += 1;
    }
    assert(r.deep_view() =~= program_candidates(paths.deep_view(), program@));
    r
}

/// Says what to do next to locate `program` in `paths`, given for the
/// directories tried so far whether the program is an executable file there.
pub fn locate(paths: &Vec<String>, program: &str, outcomes: &[bool]) -> (r: Step)
    ensures
        r@ == next_step(program_candidates(paths.deep_view(), program@), outcomes@),
{
    let all = program_paths(paths, program);
    advance(&all, outcomes)
}

/// Looks in each of `paths`, in order, for `program` as a file that the
/// current process may execute, and returns the path of the first one.
///
/// Which files may be executed is for the operating system to say, so only
/// this is promised of the result: a path that is returned is that of
/// `program` in one of `paths`. Which one is decided by `locate`, from the
/// answers of the operating system.
pub fn find_in_paths(paths: &Vec<String>, program: &str) -> (r: Option<String>)
    ensures
        match r {
            Some(found) => exists|i: int|
                0 <= i < paths.len() && found@ == joined(#[trigger] paths[i]@, program@),
            None => true,
        },
{
    let all = program_paths(paths, program);
    let mut outcomes: Vec<bool> = Vec::new();
    loop
        invariant
            all.deep_view() == program_candidates(paths.deep_view(), program@),
            outcomes.len() <= all.len(),
        decreases all.len() - outcomes.len(),
    {
        let step = advance(&all, outcomes.as_slice());
        proof {
            lemma_next_step_cases(all.deep_view(), outcomes@);
        }
        match step {
            Step::Probe(candidate) => {
                outcomes.push(is_executable(candidate.as_str()));
            },
            Step::Found(found) => {
                proof {
                    let k = choose|k: int|
                        0 <= k < all.len() && #[trigger] outcomes@[k] && found@
                            == all.deep_view()[k];
                    assert(found@ == joined(paths[k]@, program@));
                }
                return Some(found);
            },
            Step::NotFound => {
                return None;
            },
        }
    }
}

} // verus!
