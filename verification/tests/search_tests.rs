use ntrun::search::{advance, Step};

fn list(items: &[&str]) -> Vec<String> {
    items.iter().map(|s| s.to_string()).collect()
}

#[test]
fn empty_candidate_list_is_not_found() {
    assert!(matches!(advance(&Vec::new(), &[]), Step::NotFound));
    assert!(matches!(advance(&Vec::new(), &[true]), Step::NotFound));
}

#[test]
fn first_candidate_is_probed_first() {
    match advance(&list(&["a", "b"]), &[]) {
        Step::Probe(c) => assert_eq!(c, "a"),
        other => panic!("{:?}", other),
    }
}

#[test]
fn failure_moves_on_to_the_next_candidate() {
    match advance(&list(&["a", "b"]), &[false]) {
        Step::Probe(c) => assert_eq!(c, "b"),
        other => panic!("{:?}", other),
    }
}

#[test]
fn first_success_is_found() {
    match advance(&list(&["a", "b", "c"]), &[false, true]) {
        Step::Found(c) => assert_eq!(c, "b"),
        other => panic!("{:?}", other),
    }
    match advance(&list(&["a", "b", "c"]), &[true]) {
        Step::Found(c) => assert_eq!(c, "a"),
        other => panic!("{:?}", other),
    }
}

#[test]
fn all_failures_is_not_found() {
    assert!(matches!(advance(&list(&["a", "b"]), &[false, false]), Step::NotFound));
}

#[test]
fn search_ends_after_at_most_one_probe_per_candidate() {
    let candidates = list(&["a", "b", "c", "d"]);
    for winner in 0..=candidates.len() {
        let mut outcomes: Vec<bool> = Vec::new();
        let result = loop {
            match advance(&candidates, &outcomes) {
                Step::Probe(c) => {
                    assert_eq!(c, candidates[outcomes.len()]);
                    outcomes.push(outcomes.len() == winner);
                }
                Step::Found(c) => break Some(c),
                Step::NotFound => break None,
            }
            assert!(outcomes.len() <= candidates.len());
        };
        assert_eq!(result, candidates.get(winner).cloned());
    }
}
