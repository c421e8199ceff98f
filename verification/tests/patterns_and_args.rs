//! Tests for pattern classification, argument layout, and error text.

use cargo_groups::errors::GroupsError;
use cargo_groups::groups::{plan_group_command, GroupDef};
use cargo_groups::options::{
    add_features, group_command_args, CommandOptions, Features, SpecificOptions,
};
use cargo_groups::pattern::{classify_pattern, PatternRule};
use cargo_groups::resolve::Package;

fn pkg(identifier: &str, path: &str, dependencies: &[&str]) -> Package {
    Package {
        identifier: identifier.to_string(),
        path: path.to_string(),
        dependencies: dependencies.iter().map(|d| d.to_string()).collect(),
    }
}

fn patterns(raw: &[&str]) -> Vec<String> {
    raw.iter().map(|p| p.to_string()).collect()
}

#[test]
fn classify_pattern_dispatches_on_prefix() {
    match classify_pattern(&"pkg:foo-*".to_string()) {
        PatternRule::ByIdentifier(g) => assert_eq!(g, "foo-*"),
        PatternRule::ByPath(_) => panic!("pkg: pattern classified as a path rule"),
    }
    match classify_pattern(&"path:crates/*".to_string()) {
        PatternRule::ByPath(g) => assert_eq!(g, "crates/*"),
        PatternRule::ByIdentifier(_) => panic!("path: pattern classified as an identifier rule"),
    }
    match classify_pattern(&"crates/*".to_string()) {
        PatternRule::ByPath(g) => assert_eq!(g, "crates/*"),
        PatternRule::ByIdentifier(_) => panic!("bare pattern classified as an identifier rule"),
    }
}

#[test]
fn classify_pattern_keeps_short_strings_whole() {
    // Strings shorter than a prefix, or with a near-miss prefix, stay whole.
    match classify_pattern(&"pkg".to_string()) {
        PatternRule::ByPath(g) => assert_eq!(g, "pkg"),
        PatternRule::ByIdentifier(_) => panic!("'pkg' alone is not a prefixed pattern"),
    }
    match classify_pattern(&"pkgs:x".to_string()) {
        PatternRule::ByPath(g) => assert_eq!(g, "pkgs:x"),
        PatternRule::ByIdentifier(_) => panic!("'pkgs:' is not the identifier prefix"),
    }
}

#[test]
fn feature_arguments_in_order() {
    let mut cmd: Vec<String> = Vec::new();
    let features = Features {
        all_features: true,
        no_default_features: true,
        features: vec!["serde".to_string(), "rayon".to_string()],
    };
    add_features(&mut cmd, &features);
    assert_eq!(
        cmd,
        vec![
            "--no-default-features".to_string(),
            "--all-features".to_string(),
            "--features".to_string(),
            "serde".to_string(),
            "rayon".to_string(),
        ]
    );
}

#[test]
fn no_feature_arguments_when_nothing_selected() {
    let mut cmd: Vec<String> = vec!["check".to_string()];
    let features = Features {
        all_features: false,
        no_default_features: false,
        features: Vec::new(),
    };
    add_features(&mut cmd, &features);
    assert_eq!(cmd, vec!["check".to_string()]);
}

#[test]
fn option_arguments_in_order() {
    let mut cmd: Vec<String> = Vec::new();
    let options = CommandOptions {
        release: true,
        specific: SpecificOptions::Clippy {
            fix: true,
            allow_dirty: true,
        },
    };
    options.add_to_command(&mut cmd);
    assert_eq!(
        cmd,
        vec![
            "--release".to_string(),
            "--fix".to_string(),
            "--allow-dirty".to_string(),
        ]
    );

    let mut cmd: Vec<String> = Vec::new();
    let options = CommandOptions {
        release: false,
        specific: SpecificOptions::Clippy {
            fix: false,
            allow_dirty: false,
        },
    };
    options.add_to_command(&mut cmd);
    assert!(cmd.is_empty());
}

#[test]
fn group_command_args_lays_out_full_invocation() {
    let features = Features {
        all_features: false,
        no_default_features: false,
        features: Vec::new(),
    };
    let options = CommandOptions {
        release: true,
        specific: SpecificOptions::Default,
    };
    let members = vec![pkg("a", "crates/a", &[]), pkg("b", "crates/b", &[])];
    let cmd = group_command_args(&"test".to_string(), &features, &options, &members);
    assert_eq!(
        cmd,
        vec![
            "test".to_string(),
            "--release".to_string(),
            "-p".to_string(),
            "a".to_string(),
            "-p".to_string(),
            "b".to_string(),
        ]
    );
}

#[test]
fn plan_group_command_end_to_end() {
    let groups = vec![GroupDef {
        name: "libs".to_string(),
        patterns: patterns(&["crates/*"]),
    }];
    let packages = vec![
        pkg("a", "crates/a", &["b"]),
        pkg("b", "crates/b", &[]),
        pkg("t", "tools/t", &[]),
    ];
    let features = Features {
        all_features: false,
        no_default_features: false,
        features: Vec::new(),
    };
    let options = CommandOptions {
        release: false,
        specific: SpecificOptions::Default,
    };
    // Top-level reduction drops `b`, which `a` depends on.
    let cmd = plan_group_command(
        &groups,
        &"check".to_string(),
        &"libs".to_string(),
        &features,
        &options,
        &packages,
        true,
    )
    .unwrap();
    assert_eq!(
        cmd,
        vec!["check".to_string(), "-p".to_string(), "a".to_string()]
    );
}

#[test]
fn plan_group_command_reports_unknown_group() {
    let groups: Vec<GroupDef> = Vec::new();
    let features = Features {
        all_features: false,
        no_default_features: false,
        features: Vec::new(),
    };
    let options = CommandOptions {
        release: false,
        specific: SpecificOptions::Default,
    };
    let err = plan_group_command(
        &groups,
        &"build".to_string(),
        &"ghost".to_string(),
        &features,
        &options,
        &Vec::new(),
        false,
    )
    .unwrap_err();
    assert_eq!(
        err,
        GroupsError::GroupNotFound {
            name: "ghost".to_string()
        }
    );
}

#[test]
fn error_descriptions_name_the_culprit() {
    let parse = GroupsError::ParseError {
        pattern: "pkg:[".to_string(),
    };
    assert_eq!(parse.describe(), "invalid glob pattern: pkg:[");
    let missing = GroupsError::GroupNotFound {
        name: "ghost".to_string(),
    };
    assert_eq!(missing.describe(), "Group not found: ghost");
    assert_eq!(
        GroupsError::MatcherBuild.describe(),
        "failed to build glob matcher"
    );
}
