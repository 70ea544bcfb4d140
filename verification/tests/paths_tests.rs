use flack_serve::paths::{get_safe_path, PathVerdict};

fn candidate(store_dir: &str, s: &str) -> (String, String) {
    match get_safe_path(store_dir, s) {
        PathVerdict::Candidate { base_path, full_path } => (base_path, full_path),
        _ => panic!("expected the validator to accept {}", s),
    }
}

#[test]
fn nested_file_under_store_is_accepted() {
    let (base, full) = candidate("/store", "/store/abc-name/sub/file");
    assert_eq!(base, "/store/abc-name");
    assert_eq!(full, "/store/abc-name/sub/file");
}

#[test]
fn dotdot_escape_is_not_a_store_path() {
    let verdict = get_safe_path("/store", "/store/abc-name/../../etc/passwd");
    assert!(matches!(verdict, PathVerdict::NotStorePath));
}

#[test]
fn validator_is_idempotent_on_its_output() {
    let (base, full) = candidate("/store", "/store/abc/./sub/../file");
    assert_eq!(base, "/store/abc");
    assert_eq!(full, "/store/abc/file");
    let (base2, full2) = candidate("/store", &full);
    assert_eq!(base2, base);
    assert_eq!(full2, full);
}

#[test]
fn unrelated_path_is_not_a_path() {
    let verdict = get_safe_path("/store", "/etc/passwd");
    assert!(matches!(verdict, PathVerdict::NotAPath));
}

#[test]
fn sibling_with_same_prefix_text_is_not_a_path() {
    let verdict = get_safe_path("/store", "/storeroom/x");
    assert!(matches!(verdict, PathVerdict::NotAPath));
}

#[test]
fn relative_store_root_fails_closed() {
    let verdict = get_safe_path("store", "store/x");
    assert!(matches!(verdict, PathVerdict::RootNotAbsolute));
}

#[test]
fn candidate_naming_the_root_keeps_the_root_as_base() {
    let (base, full) = candidate("/store", "/store/");
    assert_eq!(base, "/store");
    assert_eq!(full, "/store");
}

#[test]
fn escape_past_filesystem_root_is_not_a_store_path() {
    let verdict = get_safe_path("/store", "/store/../../x");
    assert!(matches!(verdict, PathVerdict::NotStorePath));
}

#[test]
fn escape_to_store_parent_is_not_a_store_path() {
    let verdict = get_safe_path("/store", "/store/..");
    assert!(matches!(verdict, PathVerdict::NotStorePath));
}

#[test]
fn dot_segments_are_resolved_lexically() {
    let (base, full) = candidate("/nix/store", "/nix/store/abc/./x/y/../z");
    assert_eq!(base, "/nix/store/abc");
    assert_eq!(full, "/nix/store/abc/x/z");
}

#[test]
fn duplicate_separators_collapse() {
    let (base, full) = candidate("/store", "/store//abc//f");
    assert_eq!(base, "/store/abc");
    assert_eq!(full, "/store/abc/f");
}
