//! Searching an ordered list of candidates for the first one that succeeds.
//!
//! The search itself asks nothing of the outside world. It is told the
//! answers given so far, one per candidate from the front of the list, and
//! says what to do next: put the next candidate to the test, stop with the
//! candidate that succeeded, or give up.

use vstd::prelude::*;

verus! {

/// The next move of a search.
#[derive(Clone, Debug, PartialEq, Eq)]
pub enum Step {
    /// Put this candidate to the test and report the answer.
    Probe(String),
    /// This candidate succeeded; the search is over.
    Found(String),
    /// Every candidate failed; the search is over.
    NotFound,
}

/// What a `Step` says, with the candidate as a sequence of characters.
pub enum StepView {
    Probe(Seq<char>),
    Found(Seq<char>),
    NotFound,
}

impl View for Step {
    type V = StepView;

    open spec fn view(&self) -> StepView {
        match self {
            Step::Probe(c) => StepView::Probe(c@),
            Step::Found(c) => StepView::Found(c@),
            Step::NotFound => StepView::NotFound,
        }
    }
}

/// The next move when `outcomes[i]` is the answer for `candidates[i]`.
///
/// The first candidate whose answer is `true` is found. If all answers so far
/// are `false`, the first candidate without an answer is probed, and when no
/// candidate is left the search has failed. Answers beyond the first `true`,
/// and answers without a candidate, change nothing.
pub open spec fn next_step(candidates: Seq<Seq<char>>, outcomes: Seq<bool>) -> StepView
    decreases candidates.len(),
{
    if candidates.len() == 0 {
        StepView::NotFound
    } else if outcomes.len() == 0 {
        StepView::Probe(candidates[0])
    } else if outcomes[0] {
        StepView::Found(candidates[0])
    } else {
        next_step(candidates.skip(1), outcomes.skip(1))
    }
}

/// The first candidate of which `holds` is true, if there is one.
pub open spec fn first_match(candidates: Seq<Seq<char>>, holds: spec_fn(Seq<char>) -> bool) -> Option<
    Seq<char>,
>
    decreases candidates.len(),
{
    if candidates.len() == 0 {
        None
    } else if holds(candidates[0]) {
        Some(candidates[0])
    } else {
        first_match(candidates.skip(1), holds)
    }
}

/// Where a search ends that has the answers `outcomes` so far and is from
/// then on told, for each candidate it probes, what `holds` says of it.
pub open spec fn run_from(
    candidates: Seq<Seq<char>>,
    holds: spec_fn(Seq<char>) -> bool,
    outcomes: Seq<bool>,
) -> Option<Seq<char>>
    decreases candidates.len() - outcomes.len(),
{
    match next_step(candidates, outcomes) {
        StepView::Found(c) => Some(c),
        StepView::NotFound => None,
        StepView::Probe(c) => if outcomes.len() < candidates.len() {
            run_from(candidates, holds, outcomes.push(holds(c)))
        } else {
            None
        },
    }
}

/// Where a search ends that starts without answers and is told, for each
/// candidate it probes, what `holds` says of it.
pub open spec fn run(candidates: Seq<Seq<char>>, holds: spec_fn(Seq<char>) -> bool) -> Option<
    Seq<char>,
> {
    run_from(candidates, holds, Seq::empty())
}

/// Whether `outcomes` are the answers that `holds` gives for the candidates
/// at the front of the list.
pub open spec fn answers(
    candidates: Seq<Seq<char>>,
    outcomes: Seq<bool>,
    holds: spec_fn(Seq<char>) -> bool,
) -> bool {
    &&& outcomes.len() <= candidates.len()
    &&& forall|i: int| 0 <= i < outcomes.len() ==> outcomes[i] == holds(#[trigger] candidates[i])
}

/// A run of failed answers at the front can be dropped together with its
/// candidates.
pub proof fn lemma_skip_failures(candidates: Seq<Seq<char>>, outcomes: Seq<bool>, n: int)
    requires
        0 <= n <= candidates.len(),
        n <= outcomes.len(),
        forall|j: int| 0 <= j < n ==> !outcomes[j],
    ensures
        next_step(candidates, outcomes) == next_step(candidates.skip(n), outcomes.skip(n)),
    decreases n,
{
    if n == 0 {
        assert(candidates.skip(0) == candidates);
        assert(outcomes.skip(0) == outcomes);
    } else {
        lemma_skip_failures(candidates.skip(1), outcomes.skip(1), n - 1);
        assert(candidates.skip(1).skip(n - 1) == candidates.skip(n));
        assert(outcomes.skip(1).skip(n - 1) == outcomes.skip(n));
    }
}

/// The candidate at the first `true` answer is found, whatever follows.
pub proof fn lemma_found_at_first_success(candidates: Seq<Seq<char>>, outcomes: Seq<bool>, k: int)
    requires
        0 <= k < candidates.len(),
        k < outcomes.len(),
        outcomes[k],
        forall|j: int| 0 <= j < k ==> !outcomes[j],
    ensures
        next_step(candidates, outcomes) == StepView::Found(candidates[k]),
{
    lemma_skip_failures(candidates, outcomes, k);
}

/// While every answer is `false` and a candidate is left, that candidate is
/// probed next.
pub proof fn lemma_probe_after_failures(candidates: Seq<Seq<char>>, outcomes: Seq<bool>)
    requires
        outcomes.len() < candidates.len(),
        forall|j: int| 0 <= j < outcomes.len() ==> !outcomes[j],
    ensures
        next_step(candidates, outcomes) == StepView::Probe(candidates[outcomes.len() as int]),
{
    lemma_skip_failures(candidates, outcomes, outcomes.len() as int);
}

/// When every candidate has failed, the search has failed.
pub proof fn lemma_not_found_after_failures(candidates: Seq<Seq<char>>, outcomes: Seq<bool>)
    requires
        candidates.len() <= outcomes.len(),
        forall|j: int| 0 <= j < candidates.len() ==> !outcomes[j],
    ensures
        next_step(candidates, outcomes) == StepView::NotFound,
{
    lemma_skip_failures(candidates, outcomes, candidates.len() as int);
}

/// What each move tells of the answers that led to it.
///
/// A candidate is found only at the first `true` answer. A candidate is
/// probed only when it is the first without an answer and all answers are
/// `false`. The search fails only when every candidate has the answer
/// `false`.
pub proof fn lemma_next_step_cases(candidates: Seq<Seq<char>>, outcomes: Seq<bool>)
    ensures
        match next_step(candidates, outcomes) {
            StepView::Found(c) => exists|k: int|
                {
                    &&& 0 <= k < candidates.len()
                    &&& k < outcomes.len()
                    &&& #[trigger] outcomes[k]
                    &&& c == candidates[k]
                    &&& forall|j: int| 0 <= j < k ==> !outcomes[j]
                },
            StepView::Probe(c) => {
                &&& outcomes.len() < candidates.len()
                &&& c == candidates[outcomes.len() as int]
                &&& forall|j: int| 0 <= j < outcomes.len() ==> !outcomes[j]
            },
            StepView::NotFound => {
                &&& candidates.len() <= outcomes.len()
                &&& forall|j: int| 0 <= j < candidates.len() ==> !outcomes[j]
            },
        },
    decreases candidates.len(),
{
    if candidates.len() == 0 {
    } else if outcomes.len() == 0 {
    } else if outcomes[0] {
    } else {
        let rest = candidates.skip(1);
        let later = outcomes.skip(1);
        lemma_next_step_cases(rest, later);
        match next_step(rest, later) {
            StepView::Found(c) => {
                let k = choose|k: int|
                    {
                        &&& 0 <= k < rest.len()
                        &&& k < later.len()
                        &&& #[trigger] later[k]
                        &&& c == rest[k]
                        &&& forall|j: int| 0 <= j < k ==> !later[j]
                    };
                assert(outcomes[k + 1]);
                assert forall|j: int| 0 <= j < k + 1 implies !outcomes[j] by {
                    if j > 0 {
                        assert(later[j - 1] == outcomes[j]);
                    }
                }
            },
            StepView::Probe(c) => {
                assert forall|j: int| 0 <= j < outcomes.len() implies !outcomes[j] by {
                    if j > 0 {
                        assert(later[j - 1] == outcomes[j]);
                    }
                }
            },
            StepView::NotFound => {
                assert forall|j: int| 0 <= j < candidates.len() implies !outcomes[j] by {
                    if j > 0 {
                        assert(later[j - 1] == outcomes[j]);
                    }
                }
            },
        }
    }
}

/// `first_match` is the candidate at the least index of which `holds` is
/// true, and is `None` when there is no such index.
pub proof fn lemma_first_match(candidates: Seq<Seq<char>>, holds: spec_fn(Seq<char>) -> bool)
    ensures
        match first_match(candidates, holds) {
            Some(c) => exists|k: int|
                0 <= k < candidates.len() && #[trigger] candidates[k] == c && holds(c) && forall|
                    j: int,
                | 0 <= j < k ==> !holds(#[trigger] candidates[j]),
            None => forall|j: int| 0 <= j < candidates.len() ==> !holds(#[trigger] candidates[j]),
        },
    decreases candidates.len(),
{
    if candidates.len() > 0 && !holds(candidates[0]) {
        let rest = candidates.skip(1);
        lemma_first_match(rest, holds);
        match first_match(rest, holds) {
            Some(c) => {
                let k = choose|k: int|
                    0 <= k < rest.len() && #[trigger] rest[k] == c && holds(c) && forall|j: int|
                        0 <= j < k ==> !holds(#[trigger] rest[j]);
                assert(candidates[k + 1] == c);
                assert forall|j: int| 0 <= j < k + 1 implies !holds(#[trigger] candidates[j]) by {
                    if j > 0 {
                        assert(rest[j - 1] == candidates[j]);
                    }
                }
            },
            None => {
                assert forall|j: int| 0 <= j < candidates.len() implies !holds(
                    #[trigger] candidates[j],
                ) by {
                    if j > 0 {
                        assert(rest[j - 1] == candidates[j]);
                    }
                }
            },
        }
    } else if candidates.len() > 0 {
        assert(candidates[0] == candidates[0]);
    }
}

/// A search that is told the truth ends where `first_match` says.
///
/// If each answer so far is what `holds` says of its candidate, then a found
/// candidate is the first one of which `holds` is true, a failed search means
/// that there is none, and a probe is asked only of the first candidate
/// without an answer, after all before it have failed.
pub proof fn lemma_search_is_first_match(
    candidates: Seq<Seq<char>>,
    outcomes: Seq<bool>,
    holds: spec_fn(Seq<char>) -> bool,
)
    requires
        answers(candidates, outcomes, holds),
    ensures
        match next_step(candidates, outcomes) {
            StepView::Found(c) => first_match(candidates, holds) == Some(c),
            StepView::NotFound => first_match(candidates, holds).is_none(),
            StepView::Probe(c) => {
                &&& outcomes.len() < candidates.len()
                &&& c == candidates[outcomes.len() as int]
                &&& first_match(candidates.take(outcomes.len() as int), holds).is_none()
            },
        },
    decreases candidates.len(),
{
    if candidates.len() == 0 {
    } else if outcomes.len() == 0 {
        assert(candidates.take(0).len() == 0);
    } else if outcomes[0] {
        assert(holds(candidates[0]));
    } else {
        let rest = candidates.skip(1);
        let later = outcomes.skip(1);
        assert(!holds(candidates[0]));
        assert forall|i: int| 0 <= i < later.len() implies later[i] == holds(#[trigger] rest[i]) by {
            assert(rest[i] == candidates[i + 1]);
            assert(later[i] == outcomes[i + 1]);
        }
        lemma_search_is_first_match(rest, later, holds);
        if next_step(rest, later) is Probe {
            let n = outcomes.len() as int;
            assert(candidates.take(n).skip(1) == rest.take(n - 1));
            assert(candidates.take(n)[0] == candidates[0]);
        }
    }
}

/// A search that is told the truth from some point on ends where
/// `first_match` says.
pub proof fn lemma_run_from_is_first_match(
    candidates: Seq<Seq<char>>,
    holds: spec_fn(Seq<char>) -> bool,
    outcomes: Seq<bool>,
)
    requires
        answers(candidates, outcomes, holds),
    ensures
        run_from(candidates, holds, outcomes) == first_match(candidates, holds),
    decreases candidates.len() - outcomes.len(),
{
    lemma_search_is_first_match(candidates, outcomes, holds);
    if let StepView::Probe(c) = next_step(candidates, outcomes) {
        lemma_run_from_is_first_match(candidates, holds, outcomes.push(holds(c)));
    }
}

/// A search run from the start to its end finds the first candidate of
/// which `holds` is true, and fails if there is none.
pub proof fn lemma_run_is_first_match(candidates: Seq<Seq<char>>, holds: spec_fn(Seq<char>) -> bool)
    ensures
        run(candidates, holds) == first_match(candidates, holds),
{
    lemma_run_from_is_first_match(candidates, holds, Seq::empty());
}

/// Says what to do next in the search through `candidates`, given the answers
/// so far.
pub fn advance(candidates: &Vec<String>, outcomes: &[bool]) -> (r: Step)
    ensures
        r@ == next_step(candidates.deep_view(), outcomes@),
{
    let mut i: usize = 0;
    while i < candidates.len() && i < outcomes.len()
        invariant
            i <= candidates.len(),
            i <= outcomes.len(),
            forall|j: int| 0 <= j < i ==> !outcomes[j],
        decreases candidates.len() - i,
    {
        if outcomes[i] {
            proof {
                lemma_found_at_first_success(candidates.deep_view(), outcomes@, i as int);
            }
            return Step::Found(candidates[i].clone());
        }
        i += 1;
    }
    if i < candidates.len() {
        proof {
            lemma_probe_after_failures(candidates.deep_view(), outcomes@);
        }
        Step::Probe(candidates[i].clone())
    } else {
        proof {
            lemma_not_found_after_failures(candidates.deep_view(), outcomes@);
        }
        Step::NotFound
    }
}

} // verus!
