//! Tests for group resolution: matching, reduction, and error handling.

use cargo_groups::errors::GroupsError;
use cargo_groups::groups::{resolve_group, GroupDef};
use cargo_groups::pattern::classify;
use cargo_groups::resolve::{get_group_crates, match_packages, reduce_to_top_level, Package};

fn pkg(identifier: &str, path: &str, dependencies: &[&str]) -> Package {
    Package {
        identifier: identifier.to_string(),
        path: path.to_string(),
        dependencies: dependencies.iter().map(|d| d.to_string()).collect(),
    }
}

fn patterns(raw: &[&str]) -> Vec<String> {
    raw.iter().map(|p| p.to_string()).collect()
}

fn sorted_identifiers(packages: &[Package]) -> Vec<String> {
    let mut ids: Vec<String> = packages.iter().map(|p| p.identifier.clone()).collect();
    ids.sort();
    ids
}

#[test]
fn match_by_identifier_glob_only() {
    // `pkg:` patterns consult the identifier namespace only: a package whose
    // *path* happens to match the glob is not selected.
    let packages = vec![
        pkg("foo-bar", "crates/x", &[]),
        pkg("baz", "crates/foo-bar", &[]),
    ];
    let crates = get_group_crates(&patterns(&["pkg:foo-*"]), &packages, false).unwrap();
    assert_eq!(sorted_identifiers(&crates), vec!["foo-bar".to_string()]);
}

#[test]
fn match_by_path_glob_only() {
    // Path patterns consult the path namespace only: a package whose
    // *identifier* matches the glob is not selected.
    let packages = vec![
        pkg("crates-tool", "tools/one", &[]),
        pkg("two", "crates/two", &[]),
    ];
    let crates = get_group_crates(&patterns(&["path:crates/*"]), &packages, false).unwrap();
    assert_eq!(sorted_identifiers(&crates), vec!["two".to_string()]);
}

#[test]
fn match_is_union_of_both_namespaces() {
    let packages = vec![
        pkg("alpha", "crates/a", &[]),
        pkg("beta", "tools/b", &[]),
        pkg("gamma", "misc/g", &[]),
    ];
    let crates =
        get_group_crates(&patterns(&["pkg:beta", "crates/*"]), &packages, false).unwrap();
    assert_eq!(
        sorted_identifiers(&crates),
        vec!["alpha".to_string(), "beta".to_string()]
    );
}

#[test]
fn unprefixed_pattern_equals_path_prefixed() {
    // An unprefixed pattern behaves exactly like its `path:`-prefixed form.
    let packages = vec![
        pkg("one", "crates/one", &[]),
        pkg("two", "crates/two", &[]),
        pkg("three", "tools/three", &[]),
    ];
    let bare = get_group_crates(&patterns(&["crates/*"]), &packages, false).unwrap();
    let prefixed = get_group_crates(&patterns(&["path:crates/*"]), &packages, false).unwrap();
    assert_eq!(sorted_identifiers(&bare), sorted_identifiers(&prefixed));
    assert_eq!(
        sorted_identifiers(&bare),
        vec!["one".to_string(), "two".to_string()]
    );
}

#[test]
fn reduction_removes_direct_and_chained_dependencies() {
    // A depends on B, B depends on C, D stands alone; all four matched.
    // B is covered by A, and C is covered by B (even though B is itself
    // removed), so only A and D survive.
    let packages = vec![
        pkg("a", "crates/a", &["b"]),
        pkg("b", "crates/b", &["c"]),
        pkg("c", "crates/c", &[]),
        pkg("d", "crates/d", &[]),
    ];
    let crates = get_group_crates(&patterns(&["crates/*"]), &packages, true).unwrap();
    assert_eq!(
        sorted_identifiers(&crates),
        vec!["a".to_string(), "d".to_string()]
    );
}

#[test]
fn reduction_ignores_unmatched_intermediaries() {
    // A depends on B, B depends on C, but only A and C are matched.  C's
    // only coverer, B, is not itself matched, so C survives.
    let packages = vec![
        pkg("a", "crates/a", &["b"]),
        pkg("b", "crates/b", &["c"]),
        pkg("c", "crates/c", &[]),
    ];
    let crates = get_group_crates(&patterns(&["pkg:a", "pkg:c"]), &packages, true).unwrap();
    assert_eq!(
        sorted_identifiers(&crates),
        vec!["a".to_string(), "c".to_string()]
    );
}

#[test]
fn reduction_is_idempotent() {
    let packages = vec![
        pkg("a", "crates/a", &["b", "x"]),
        pkg("b", "crates/b", &["c"]),
        pkg("c", "crates/c", &[]),
        pkg("d", "crates/d", &["d"]),
    ];
    let once = reduce_to_top_level(&packages);
    let twice = reduce_to_top_level(&once);
    assert_eq!(once, twice);
}

#[test]
fn reduction_considers_only_matched_dependencies() {
    // A dependency identifier that names no matched package changes nothing.
    let packages = vec![pkg("a", "crates/a", &["outside-dep"]), pkg("b", "crates/b", &[])];
    let crates = get_group_crates(&patterns(&["crates/*"]), &packages, true).unwrap();
    assert_eq!(
        sorted_identifiers(&crates),
        vec!["a".to_string(), "b".to_string()]
    );
}

#[test]
fn empty_match_is_ok_not_error() {
    let packages = vec![pkg("a", "crates/a", &[]), pkg("b", "crates/b", &[])];
    let crates = get_group_crates(&patterns(&["pkg:zzz-*"]), &packages, false).unwrap();
    assert!(crates.is_empty());
    let reduced = get_group_crates(&patterns(&["pkg:zzz-*"]), &packages, true).unwrap();
    assert!(reduced.is_empty());
}

#[test]
fn empty_pattern_list_compiles_and_matches_nothing() {
    // With no patterns at all the matcher still compiles, and matches
    // neither namespace.
    let matcher = classify(&Vec::new()).unwrap();
    assert!(!matcher.identifier_matches(&"anything".to_string()));
    assert!(!matcher.path_matches(&"crates/a".to_string()));
    let packages = vec![pkg("a", "crates/a", &[])];
    let crates = get_group_crates(&Vec::new(), &packages, false).unwrap();
    assert!(crates.is_empty());
}

#[test]
fn duplicate_match_is_deduplicated() {
    // Both the identifier and the path of `dual` match; it appears once.
    let packages = vec![pkg("dual", "crates/dual", &[]), pkg("other", "tools/o", &[])];
    let crates =
        get_group_crates(&patterns(&["pkg:dual", "crates/dual"]), &packages, false).unwrap();
    assert_eq!(crates.len(), 1);
    assert_eq!(crates[0].identifier, "dual");
}

#[test]
fn invalid_glob_fails_with_offending_pattern() {
    let packages = vec![pkg("a", "crates/a", &[])];
    let err = get_group_crates(&patterns(&["pkg:a", "pkg:["]), &packages, false).unwrap_err();
    assert_eq!(
        err,
        GroupsError::ParseError {
            pattern: "pkg:[".to_string()
        }
    );
}

#[test]
fn unknown_group_fails_with_its_name() {
    let groups = vec![GroupDef {
        name: "tools".to_string(),
        patterns: patterns(&["tools/*"]),
    }];
    let packages = vec![pkg("a", "crates/a", &[])];
    let err = resolve_group(&groups, &"nope".to_string(), &packages, false).unwrap_err();
    assert_eq!(
        err,
        GroupsError::GroupNotFound {
            name: "nope".to_string()
        }
    );
    // The same holds against an empty package list.
    let none: Vec<Package> = Vec::new();
    let err = resolve_group(&groups, &"nope".to_string(), &none, true).unwrap_err();
    assert_eq!(
        err,
        GroupsError::GroupNotFound {
            name: "nope".to_string()
        }
    );
}

#[test]
fn resolve_group_finds_named_group() {
    let groups = vec![
        GroupDef {
            name: "libs".to_string(),
            patterns: patterns(&["crates/*"]),
        },
        GroupDef {
            name: "tools".to_string(),
            patterns: patterns(&["tools/*"]),
        },
    ];
    let packages = vec![
        pkg("a", "crates/a", &[]),
        pkg("t", "tools/t", &[]),
    ];
    let crates = resolve_group(&groups, &"tools".to_string(), &packages, false).unwrap();
    assert_eq!(sorted_identifiers(&crates), vec!["t".to_string()]);
}

#[test]
fn matcher_results_depend_on_the_glob() {
    // A matcher that ignored its patterns could not tell these apart.
    let matcher = classify(&patterns(&["pkg:foo-*"])).unwrap();
    assert!(matcher.identifier_matches(&"foo-core".to_string()));
    assert!(!matcher.identifier_matches(&"bar-core".to_string()));
    assert!(!matcher.path_matches(&"foo-core".to_string()));
}

#[test]
fn match_packages_keeps_every_matching_package() {
    let matcher = classify(&patterns(&["crates/**"])).unwrap();
    let packages = vec![
        pkg("a", "crates/a", &[]),
        pkg("nested", "crates/sub/nested", &[]),
        pkg("t", "tools/t", &[]),
    ];
    let matched = match_packages(&matcher, &packages);
    assert_eq!(
        sorted_identifiers(&matched),
        vec!["a".to_string(), "nested".to_string()]
    );
}
