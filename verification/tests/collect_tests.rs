use ntrun::collect::{
    bin_path, candidate_paths, get_binpaths, keep_flagged, manifest_path,
    parse_propagated_build_inputs, propagated_bin_paths,
};

fn list(items: &[&str]) -> Vec<String> {
    items.iter().map(|s| s.to_string()).collect()
}

#[test]
fn bin_path_is_bin_under_the_root() {
    assert_eq!(bin_path("/nix/store/abc-jq"), "/nix/store/abc-jq/bin");
    assert_eq!(bin_path("/nix/store/abc-jq/"), "/nix/store/abc-jq/bin");
    assert_eq!(bin_path(""), "bin");
}

#[test]
fn manifest_lies_under_nix_support() {
    assert_eq!(
        manifest_path("/nix/store/abc-jq"),
        "/nix/store/abc-jq/nix-support/propagated-build-inputs"
    );
}

#[test]
fn propagated_bin_paths_follow_manifest_order() {
    assert_eq!(
        propagated_bin_paths("/nix/store/dep1 /nix/store/dep2\n/nix/store/dep3\n"),
        list(&["/nix/store/dep1/bin", "/nix/store/dep2/bin", "/nix/store/dep3/bin"])
    );
    assert_eq!(propagated_bin_paths(""), Vec::<String>::new());
    assert_eq!(propagated_bin_paths(" \n"), Vec::<String>::new());
}

#[test]
fn candidates_are_own_bin_then_propagated_bins() {
    assert_eq!(
        candidate_paths("/nix/store/out", Some("/nix/store/dep1 /nix/store/dep2")),
        list(&["/nix/store/out/bin", "/nix/store/dep1/bin", "/nix/store/dep2/bin"])
    );
}

#[test]
fn absent_manifest_is_like_an_empty_one() {
    let absent = candidate_paths("/nix/store/out", None);
    assert_eq!(absent, list(&["/nix/store/out/bin"]));
    assert_eq!(candidate_paths("/nix/store/out", Some("")), absent);
    assert_eq!(candidate_paths("/nix/store/out", Some("\n\n")), absent);
}

#[test]
fn own_bin_and_two_dependencies_keep_manifest_order() {
    let all = candidate_paths("/nix/store/out", Some("/nix/store/dep1 /nix/store/dep2"));
    assert_eq!(
        keep_flagged(&all, &[true, true, true]),
        list(&["/nix/store/out/bin", "/nix/store/dep1/bin", "/nix/store/dep2/bin"])
    );
    let swapped = candidate_paths("/nix/store/out", Some("/nix/store/dep2 /nix/store/dep1"));
    assert_eq!(
        keep_flagged(&swapped, &[true, true, true]),
        list(&["/nix/store/out/bin", "/nix/store/dep2/bin", "/nix/store/dep1/bin"])
    );
}

#[test]
fn dependency_without_bin_is_left_out() {
    let all = candidate_paths("/nix/store/out", Some("/nix/store/dep1 /nix/store/dep2"));
    assert_eq!(
        keep_flagged(&all, &[true, false, true]),
        list(&["/nix/store/out/bin", "/nix/store/dep2/bin"])
    );
    assert_eq!(keep_flagged(&all, &[false, true, false]), list(&["/nix/store/dep1/bin"]));
    assert_eq!(keep_flagged(&all, &[false, false, false]), Vec::<String>::new());
}

#[test]
fn item_without_a_flag_is_left_out() {
    let all = list(&["a", "b", "c"]);
    assert_eq!(keep_flagged(&all, &[true]), list(&["a"]));
    assert_eq!(keep_flagged(&all, &[]), Vec::<String>::new());
    assert_eq!(keep_flagged(&all, &[false, true, true, true, true]), list(&["b", "c"]));
    assert_eq!(keep_flagged(&Vec::new(), &[true, true]), Vec::<String>::new());
}

#[test]
fn equal_items_are_each_kept_by_their_own_flag() {
    let all = list(&["x", "x", "y", "x"]);
    assert_eq!(keep_flagged(&all, &[true, false, true, true]), list(&["x", "y", "x"]));
}

#[test]
fn parse_propagated_build_inputs_keeps_existing_bin_directories() {
    assert_eq!(
        parse_propagated_build_inputs("/usr /no/such/place/anywhere\n/\n"),
        list(&["/usr/bin", "/bin"])
    );
    assert_eq!(parse_propagated_build_inputs(""), Vec::<String>::new());
    assert_eq!(parse_propagated_build_inputs("/no/such/place/anywhere"), Vec::<String>::new());
}

#[test]
fn parse_propagated_build_inputs_leaves_out_files() {
    // `/bin/sh/bin` cannot be a directory: `/bin/sh` is a file.
    assert_eq!(parse_propagated_build_inputs("/bin/sh"), Vec::<String>::new());
}

#[test]
fn get_binpaths_lists_own_bin_first() {
    assert_eq!(get_binpaths("/usr", Some("/ /no/such/place/anywhere")), list(&["/usr/bin", "/bin"]));
    assert_eq!(get_binpaths("/usr", None), list(&["/usr/bin"]));
    assert_eq!(get_binpaths("/usr", Some("")), list(&["/usr/bin"]));
}

#[test]
fn get_binpaths_without_own_bin_lists_the_dependencies() {
    assert_eq!(get_binpaths("/no/such/place/anywhere", Some("/usr")), list(&["/usr/bin"]));
    assert_eq!(get_binpaths("/no/such/place/anywhere", None), Vec::<String>::new());
}
