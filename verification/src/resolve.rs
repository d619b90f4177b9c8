//! Resolving a program name to an attribute path.
//!
//! A program is looked up first under its own name and then, unless the
//! caller asked for an exact match, under each fallback namespace in turn.
//! The first attribute path that the evaluator accepts is the result.
//! Whether a path evaluates is not decided here: the functions of this module
//! are told the evaluator's answers so far and say which path to try next.

use crate::search::{
    advance, first_match, lemma_first_match, lemma_run_is_first_match, next_step, run, Step,
};
use vstd::prelude::*;

verus! {

/// The attribute path of `name` itself in `flake`: `flake#name`.
pub open spec fn exact_attr(flake: Seq<char>, name: Seq<char>) -> Seq<char> {
    flake + seq!['#'] + name
}

/// The attribute path of `name` under `namespace` in `flake`:
/// `flake#namespace.name`.
pub open spec fn namespaced_attr(flake: Seq<char>, namespace: Seq<char>, name: Seq<char>) -> Seq<
    char,
> {
    flake + seq!['#'] + namespace + seq!['.'] + name
}

/// The namespaces that are tried when none is given, in the order of trial.
pub open spec fn common_namespaces_spec() -> Seq<Seq<char>> {
    seq!["rubyPackages"@, "nodePackages"@, "pythonPackages"@, "haskellPackages"@]
}

/// The attribute paths to try, in order: the exact one, then one for each
/// namespace unless `exact_only` is set.
pub open spec fn attr_candidates(
    flake: Seq<char>,
    name: Seq<char>,
    exact_only: bool,
    namespaces: Seq<Seq<char>>,
) -> Seq<Seq<char>> {
    if exact_only {
        seq![exact_attr(flake, name)]
    } else {
        seq![exact_attr(flake, name)] + namespaces.map_values(
            |namespace: Seq<char>| namespaced_attr(flake, namespace, name),
        )
    }
}

/// The attribute path that `name` resolves to when `evaluates` says which
/// paths the evaluator accepts, or `None` when it resolves to nothing: the
/// end of the search through the candidates in which every probe is
/// answered by `evaluates`.
pub open spec fn resolution(
    flake: Seq<char>,
    name: Seq<char>,
    exact_only: bool,
    namespaces: Seq<Seq<char>>,
    evaluates: spec_fn(Seq<char>) -> bool,
) -> Option<Seq<char>> {
    run(attr_candidates(flake, name, exact_only, namespaces), evaluates)
}

/// A name resolves to the first candidate that evaluates.
pub proof fn lemma_resolution_is_first_match(
    flake: Seq<char>,
    name: Seq<char>,
    exact_only: bool,
    namespaces: Seq<Seq<char>>,
    evaluates: spec_fn(Seq<char>) -> bool,
)
    ensures
        resolution(flake, name, exact_only, namespaces, evaluates) == first_match(
            attr_candidates(flake, name, exact_only, namespaces),
            evaluates,
        ),
{
    lemma_run_is_first_match(attr_candidates(flake, name, exact_only, namespaces), evaluates);
}

/// A name that evaluates under its exact attribute path resolves to that
/// path, whatever the namespaces are, in whatever order, and whether or not
/// they are tried at all.
pub proof fn lemma_exact_wins(
    flake: Seq<char>,
    name: Seq<char>,
    exact_only: bool,
    namespaces: Seq<Seq<char>>,
    evaluates: spec_fn(Seq<char>) -> bool,
)
    requires
        evaluates(exact_attr(flake, name)),
    ensures
        resolution(flake, name, exact_only, namespaces, evaluates) == Some(exact_attr(flake, name)),
{
    lemma_resolution_is_first_match(flake, name, exact_only, namespaces, evaluates);
    assert(attr_candidates(flake, name, exact_only, namespaces)[0] == exact_attr(flake, name));
}

/// A name that fails under its exact attribute path resolves to its path
/// under the earliest namespace in which it evaluates.
pub proof fn lemma_earliest_namespace_wins(
    flake: Seq<char>,
    name: Seq<char>,
    namespaces: Seq<Seq<char>>,
    evaluates: spec_fn(Seq<char>) -> bool,
    k: int,
)
    requires
        !evaluates(exact_attr(flake, name)),
        0 <= k < namespaces.len(),
        evaluates(namespaced_attr(flake, namespaces[k], name)),
        forall|j: int| 0 <= j < k ==> !evaluates(namespaced_attr(flake, #[trigger] namespaces[j], name)),
    ensures
        resolution(flake, name, false, namespaces, evaluates) == Some(
            namespaced_attr(flake, namespaces[k], name),
        ),
{
    lemma_resolution_is_first_match(flake, name, false, namespaces, evaluates);
    let all = attr_candidates(flake, name, false, namespaces);
    assert(all[0] == exact_attr(flake, name));
    assert forall|i: int| 1 <= i < all.len() implies #[trigger] all[i] == namespaced_attr(
        flake,
        namespaces[i - 1],
        name,
    ) by {}
    lemma_first_match(all, evaluates);
    match first_match(all, evaluates) {
        Some(c) => {
            let m = choose|m: int|
                0 <= m < all.len() && #[trigger] all[m] == c && evaluates(c) && forall|j: int|
                    0 <= j < m ==> !evaluates(#[trigger] all[j]);
            assert(all[k + 1] == namespaced_attr(flake, namespaces[k], name));
            if m < k + 1 {
                if m > 0 {
                    assert(all[m] == namespaced_attr(flake, namespaces[m - 1], name));
                }
            } else if m > k + 1 {
                assert(!evaluates(all[k + 1]));
            }
        },
        None => {
            assert(!evaluates(all[k + 1]));
        },
    }
}

/// When only the exact attribute path may be tried and it fails, nothing is
/// resolved, even if the name evaluates under a namespace.
pub proof fn lemma_exact_only_skips_namespaces(
    flake: Seq<char>,
    name: Seq<char>,
    namespaces: Seq<Seq<char>>,
    evaluates: spec_fn(Seq<char>) -> bool,
)
    requires
        !evaluates(exact_attr(flake, name)),
    ensures
        resolution(flake, name, true, namespaces, evaluates).is_none(),
{
    lemma_resolution_is_first_match(flake, name, true, namespaces, evaluates);
    let all = attr_candidates(flake, name, true, namespaces);
    assert(all[0] == exact_attr(flake, name));
    lemma_first_match(all, evaluates);
}

/// A name that evaluates under no candidate resolves to nothing.
pub proof fn lemma_unresolved(
    flake: Seq<char>,
    name: Seq<char>,
    exact_only: bool,
    namespaces: Seq<Seq<char>>,
    evaluates: spec_fn(Seq<char>) -> bool,
)
    requires
        !evaluates(exact_attr(flake, name)),
        exact_only || forall|j: int|
            0 <= j < namespaces.len() ==> !evaluates(
                namespaced_attr(flake, #[trigger] namespaces[j], name),
            ),
    ensures
        resolution(flake, name, exact_only, namespaces, evaluates).is_none(),
{
    lemma_resolution_is_first_match(flake, name, exact_only, namespaces, evaluates);
    let all = attr_candidates(flake, name, exact_only, namespaces);
    lemma_first_match(all, evaluates);
    if let Some(c) = first_match(all, evaluates) {
        let m = choose|m: int|
            0 <= m < all.len() && #[trigger] all[m] == c && evaluates(c) && forall|j: int|
                0 <= j < m ==> !evaluates(#[trigger] all[j]);
        if m > 0 {
            assert(all[m] == namespaced_attr(flake, namespaces[m - 1], name));
        }
    }
}

/// Builds `flake#name`.
pub fn exact(flake: &str, name: &str) -> (r: String)
    ensures
        r@ == exact_attr(flake@, name@),
{
    proof {
        reveal_strlit("#");
    }
    let mut r = flake.to_owned();
    r.append("#");
    assert(r@ == flake@ + seq!['#']);
    r.append(name);
    r
}

/// Builds `flake#namespace.name`.
pub fn namespaced(flake: &str, namespace: &str, name: &str) -> (r: String)
    ensures
        r@ == namespaced_attr(flake@, namespace@, name@),
{
    proof {
        reveal_strlit("#");
        reveal_strlit(".");
    }
    let mut r = flake.to_owned();
    r.append("#");
    assert(r@ == flake@ + seq!['#']);
    r.append(namespace);
    r.append(".");
    assert(r@ == flake@ + seq!['#'] + namespace@ + seq!['.']);
    r.append(name);
    r
}

/// The namespaces that are tried when none is given.
pub fn common_namespaces() -> (r: Vec<String>)
    ensures
        r.deep_view() == common_namespaces_spec(),
{
    let mut r: Vec<String> = Vec::new();
    r.push("rubyPackages".to_owned());
    r.push("nodePackages".to_owned());
    r.push("pythonPackages".to_owned());
    r.push("haskellPackages".to_owned());
    assert(r.deep_view() =~= common_namespaces_spec());
    r
}

/// Builds the attribute paths to try, in order.
pub fn candidates(flake: &str, name: &str, exact_only: bool, namespaces: &Vec<String>) -> (r: Vec<
    String,
>)
    ensures
        r.deep_view() == attr_candidates(flake@, name@, exact_only, namespaces.deep_view()),
{
    let ghost all = attr_candidates(flake@, name@, exact_only, namespaces.deep_view());
    let mut r: Vec<String> = Vec::new();
    r.push(exact(flake, name));
    if exact_only {
        assert(r.deep_view() =~= all);
        return r;
    }
    let mut i: usize = 0;
    while i < namespaces.len()
        invariant
            !exact_only,
            all == attr_candidates(flake@, name@, exact_only, namespaces.deep_view()),
            i <= namespaces.len(),
            r.len() == i + 1,
            forall|j: int| 0 <= j < r.len() ==> (#[trigger] r[j])@ == all[j],
        decreases namespaces.len() - i,
    {
        let next = namespaced(flake, namespaces[i].as_str(), name);
        assert(next@ == all[i + 1]);
        r.push(next);
        i += 1;
    }
    assert(r.deep_view() =~= all);
    r
}

/// Says what to do next to resolve `name` in `flake`, given the evaluator's
/// answers so far: `outcomes[0]` for the exact attribute path, and
/// `outcomes[i]` for the path under `namespaces[i - 1]`.
pub fn resolve(
    flake: &str,
    name: &str,
    exact_only: bool,
    namespaces: &Vec<String>,
    outcomes: &[bool],
) -> (r: Step)
    ensures
        r@ == next_step(
            attr_candidates(flake@, name@, exact_only, namespaces.deep_view()),
            outcomes@,
        ),
{
    let all = candidates(flake, name, exact_only, namespaces);
    advance(&all, outcomes)
}

/// Says what to do next to find `name` in `flake` under its own name only.
/// `outcomes` is empty, or holds the evaluator's answer for that path.
pub fn find_exact_nix_eval(flake: &str, name: &str, outcomes: &[bool]) -> (r: Step)
    ensures
        r@ == next_step(seq![exact_attr(flake@, name@)], outcomes@),
{
    let none: Vec<String> = Vec::new();
    resolve(flake, name, true, &none, outcomes)
}

/// Says what to do next to find `name` in `flake` under its own name or, failing
/// that, under one of the common namespaces.
pub fn find_nix_eval(flake: &str, name: &str, outcomes: &[bool]) -> (r: Step)
    ensures
        r@ == next_step(
            attr_candidates(flake@, name@, false, common_namespaces_spec()),
            outcomes@,
        ),
{
    let namespaces = common_namespaces();
    resolve(flake, name, false, &namespaces, outcomes)
}

/// What to tell the user when `name` resolves to nothing in `flake`.
pub open spec fn not_found_text(name: Seq<char>, flake: Seq<char>) -> Seq<char> {
    "Could not find "@ + name + " in "@ + flake
}

/// Builds the message for a name that resolves to nothing.
pub fn not_found_message(name: &str, flake: &str) -> (r: String)
    ensures
        r@ == not_found_text(name@, flake@),
{
    let mut r = "Could not find ".to_owned();
    r.append(name);
    r.append(" in ");
    r.append(flake);
    r
}

} // verus!
