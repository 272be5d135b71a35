use lazy_java::package::Package;

fn pkg(s: &str) -> Package {
    Package::from_string(s, false)
}

#[test]
fn exact_match_is_included() {
    assert!(pkg("com.example").includes(&pkg("com.example")));
}

#[test]
fn different_segment_is_not_included() {
    assert!(!pkg("com.other").includes(&pkg("com.example")));
}

#[test]
fn shorter_other_is_not_included() {
    assert!(!pkg("com.example.lib").includes(&pkg("com.example")));
}

#[test]
fn longer_other_is_not_included() {
    assert!(!pkg("com.example").includes(&pkg("com.example.lib")));
}

#[test]
fn missing_trailing_segment_is_not_included() {
    assert!(!pkg("a.b.c").includes(&pkg("a.b")));
}

#[test]
fn wildcard_matches_single_segment() {
    assert!(pkg("*").includes(&pkg("Main")));
    assert!(!pkg("*").includes(&pkg("com.example.lib")));
}

#[test]
fn wildcard_requires_matching_prefix() {
    assert!(!pkg("org.*").includes(&pkg("com.example")));
    assert!(pkg("org.*").includes(&pkg("org.apache")));
    assert!(!pkg("org.*").includes(&pkg("org.apache.maven")));
}

#[test]
fn wildcard_matches_exactly_one_segment() {
    assert!(!pkg("com.example.*").includes(&pkg("com.example")));
    assert!(pkg("com.example.*").includes(&pkg("com.example.lib")));
    assert!(!pkg("com.example.*").includes(&pkg("com.example.deep.nested.pkg")));
}

#[test]
fn empty_package_matches_empty_package() {
    assert!(pkg("").includes(&pkg("")));
}

#[test]
fn empty_package_does_not_match_non_empty() {
    assert!(!pkg("").includes(&pkg("com")));
    assert!(!pkg("com").includes(&pkg("")));
}

#[test]
fn empty_path_has_no_segments() {
    let mut p = Package::empty();
    assert_eq!(p.pop(), None);
    p.push("com");
    p.push("*");
    assert!(p.is_wildcard());
    assert_eq!(p.pop(), Some("*".to_string()));
    assert!(!p.is_wildcard());
    assert_eq!(p.to_display_string(), "com");
}

#[test]
fn static_flag_is_kept_and_removed() {
    let mut p = Package::from_string("java.lang.Math", true);
    assert!(p.is_static());
    assert_eq!(p.to_display_string(), "static java.lang.Math");
    p.remove_static();
    assert!(!p.is_static());
    assert_eq!(p.to_display_string(), "java.lang.Math");
}

#[test]
fn join_adds_one_segment() {
    let p = pkg("com.example").join("Main");
    assert!(p.same_as(&pkg("com.example.Main")));
    assert!(!p.same_as(&pkg("com.example")));
}
