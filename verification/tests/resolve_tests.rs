use ntrun::resolve::{
    candidates, common_namespaces, exact, find_exact_nix_eval, find_nix_eval, namespaced,
    not_found_message, resolve,
};
use ntrun::search::Step;

/// Drives a resolution to its end against an evaluator that accepts exactly
/// the paths in `accepted`. Returns the result and the paths probed, in order.
fn run(
    flake: &str,
    name: &str,
    exact_only: bool,
    namespaces: &Vec<String>,
    accepted: &[&str],
) -> (Option<String>, Vec<String>) {
    let mut outcomes: Vec<bool> = Vec::new();
    let mut probed: Vec<String> = Vec::new();
    loop {
        match resolve(flake, name, exact_only, namespaces, &outcomes) {
            Step::Probe(attr) => {
                outcomes.push(accepted.contains(&attr.as_str()));
                probed.push(attr);
            }
            Step::Found(attr) => return (Some(attr), probed),
            Step::NotFound => return (None, probed),
        }
        assert!(probed.len() <= namespaces.len() + 1);
    }
}

fn strings(items: &[&str]) -> Vec<String> {
    items.iter().map(|s| s.to_string()).collect()
}

fn probe_of(step: Step) -> String {
    match step {
        Step::Probe(attr) => attr,
        other => panic!("expected a probe, got {:?}", other),
    }
}

fn found_of(step: Step) -> String {
    match step {
        Step::Found(attr) => attr,
        other => panic!("expected a result, got {:?}", other),
    }
}

#[test]
fn exact_attribute_path_is_flake_hash_name() {
    assert_eq!(exact("nixpkgs", "jq"), "nixpkgs#jq");
    assert_eq!(exact("github:NixOS/nixpkgs", "hello"), "github:NixOS/nixpkgs#hello");
    assert_eq!(exact("", ""), "#");
}

#[test]
fn namespaced_attribute_path_is_flake_hash_namespace_dot_name() {
    assert_eq!(namespaced("nixpkgs", "rubyPackages", "rails"), "nixpkgs#rubyPackages.rails");
    assert_eq!(namespaced("f", "", "n"), "f#.n");
}

#[test]
fn common_namespaces_are_fixed_and_ordered() {
    assert_eq!(
        common_namespaces(),
        strings(&["rubyPackages", "nodePackages", "pythonPackages", "haskellPackages"])
    );
}

#[test]
fn candidates_start_with_the_exact_path() {
    let namespaces = common_namespaces();
    assert_eq!(
        candidates("nixpkgs", "jq", false, &namespaces),
        strings(&[
            "nixpkgs#jq",
            "nixpkgs#rubyPackages.jq",
            "nixpkgs#nodePackages.jq",
            "nixpkgs#pythonPackages.jq",
            "nixpkgs#haskellPackages.jq",
        ])
    );
    assert_eq!(candidates("nixpkgs", "jq", true, &namespaces), strings(&["nixpkgs#jq"]));
    assert_eq!(candidates("nixpkgs", "jq", false, &Vec::new()), strings(&["nixpkgs#jq"]));
}

#[test]
fn jq_resolves_to_exact_path_without_namespace_probes() {
    let (result, probed) = run("nixpkgs", "jq", false, &common_namespaces(), &["nixpkgs#jq"]);
    assert_eq!(result, Some("nixpkgs#jq".to_string()));
    assert_eq!(probed, strings(&["nixpkgs#jq"]));
}

#[test]
fn rails_resolves_under_ruby_packages_after_two_probes() {
    let (result, probed) =
        run("nixpkgs", "rails", false, &common_namespaces(), &["nixpkgs#rubyPackages.rails"]);
    assert_eq!(result, Some("nixpkgs#rubyPackages.rails".to_string()));
    assert_eq!(probed, strings(&["nixpkgs#rails", "nixpkgs#rubyPackages.rails"]));
}

#[test]
fn unresolved_name_probes_everything_and_reports_name_and_flake() {
    let (result, probed) = run("nixpkgs", "nosuchprogram", false, &common_namespaces(), &[]);
    assert_eq!(result, None);
    assert_eq!(
        probed,
        strings(&[
            "nixpkgs#nosuchprogram",
            "nixpkgs#rubyPackages.nosuchprogram",
            "nixpkgs#nodePackages.nosuchprogram",
            "nixpkgs#pythonPackages.nosuchprogram",
            "nixpkgs#haskellPackages.nosuchprogram",
        ])
    );
    assert_eq!(
        not_found_message("nosuchprogram", "nixpkgs"),
        "Could not find nosuchprogram in nixpkgs"
    );
}

#[test]
fn exact_path_wins_over_every_namespace() {
    let accepted = ["nixpkgs#x", "nixpkgs#rubyPackages.x", "nixpkgs#haskellPackages.x"];
    for namespaces in [
        strings(&["rubyPackages", "haskellPackages"]),
        strings(&["haskellPackages", "rubyPackages"]),
        strings(&[]),
    ] {
        for exact_only in [false, true] {
            let (result, probed) = run("nixpkgs", "x", exact_only, &namespaces, &accepted);
            assert_eq!(result, Some("nixpkgs#x".to_string()));
            assert_eq!(probed, strings(&["nixpkgs#x"]));
        }
    }
}

#[test]
fn single_matching_namespace_is_the_result() {
    let (result, probed) =
        run("nixpkgs", "x", false, &common_namespaces(), &["nixpkgs#pythonPackages.x"]);
    assert_eq!(result, Some("nixpkgs#pythonPackages.x".to_string()));
    assert_eq!(
        probed,
        strings(&[
            "nixpkgs#x",
            "nixpkgs#rubyPackages.x",
            "nixpkgs#nodePackages.x",
            "nixpkgs#pythonPackages.x",
        ])
    );
}

#[test]
fn earliest_matching_namespace_is_the_result() {
    let accepted = ["f#b.x", "f#c.x"];
    let (result, _) = run("f", "x", false, &strings(&["a", "b", "c"]), &accepted);
    assert_eq!(result, Some("f#b.x".to_string()));
    let (result, _) = run("f", "x", false, &strings(&["c", "a", "b"]), &accepted);
    assert_eq!(result, Some("f#c.x".to_string()));
}

#[test]
fn exact_only_never_falls_back_to_a_namespace() {
    let accepted = ["nixpkgs#rubyPackages.rails"];
    let (result, probed) = run("nixpkgs", "rails", true, &common_namespaces(), &accepted);
    assert_eq!(result, None);
    assert_eq!(probed, strings(&["nixpkgs#rails"]));
}

#[test]
fn find_exact_nix_eval_tries_one_path() {
    assert_eq!(probe_of(find_exact_nix_eval("nixpkgs", "jq", &[])), "nixpkgs#jq");
    assert_eq!(found_of(find_exact_nix_eval("nixpkgs", "jq", &[true])), "nixpkgs#jq");
    assert!(matches!(find_exact_nix_eval("nixpkgs", "jq", &[false]), Step::NotFound));
    assert!(matches!(find_exact_nix_eval("nixpkgs", "jq", &[false, true]), Step::NotFound));
}

#[test]
fn find_nix_eval_walks_the_common_namespaces() {
    assert_eq!(probe_of(find_nix_eval("nixpkgs", "rails", &[])), "nixpkgs#rails");
    assert_eq!(
        probe_of(find_nix_eval("nixpkgs", "rails", &[false])),
        "nixpkgs#rubyPackages.rails"
    );
    assert_eq!(
        probe_of(find_nix_eval("nixpkgs", "rails", &[false, false])),
        "nixpkgs#nodePackages.rails"
    );
    assert_eq!(
        probe_of(find_nix_eval("nixpkgs", "rails", &[false, false, false])),
        "nixpkgs#pythonPackages.rails"
    );
    assert_eq!(
        probe_of(find_nix_eval("nixpkgs", "rails", &[false, false, false, false])),
        "nixpkgs#haskellPackages.rails"
    );
    assert!(matches!(
        find_nix_eval("nixpkgs", "rails", &[false, false, false, false, false]),
        Step::NotFound
    ));
    assert_eq!(
        found_of(find_nix_eval("nixpkgs", "rails", &[false, false, true])),
        "nixpkgs#nodePackages.rails"
    );
}

#[test]
fn answers_after_the_first_success_change_nothing() {
    assert_eq!(found_of(find_nix_eval("f", "x", &[true, true, false])), "f#x");
    assert_eq!(found_of(find_nix_eval("f", "x", &[false, true, true])), "f#rubyPackages.x");
    assert_eq!(
        found_of(find_nix_eval("f", "x", &[false, false, false, false, true, true, true])),
        "f#haskellPackages.x"
    );
    assert!(matches!(
        find_nix_eval("f", "x", &[false, false, false, false, false, true]),
        Step::NotFound
    ));
}
