use garnix_cli::config::{
    BuildEntry, BuildsConfig, GarnixConfig, IncrementalizeBuilds,
};
use garnix_cli::error::GarnixError;
use garnix_cli::matcher::AttributeMatcher;

fn names(list: &[&str]) -> Vec<String> {
    list.iter().map(|name| name.to_string()).collect()
}

fn rule(includes: &[&str], exclude: &[&str], branch: Option<&str>) -> BuildEntry {
    BuildEntry {
        includes: names(includes),
        exclude: names(exclude),
        branch: branch.map(|name| name.to_string()),
    }
}

fn config(rules: Vec<BuildEntry>) -> Option<GarnixConfig> {
    Some(GarnixConfig {
        builds: BuildsConfig::Multiple(rules),
        incrementalize_builds: IncrementalizeBuilds::Boolean(false),
        servers: Vec::new(),
    })
}

fn invalid(pattern: &str) -> GarnixError {
    GarnixError::PatternMatch(format!(
        "Invalid pattern format '{}', must be 'x.y' or 'x.y.z'",
        pattern
    ))
}

#[test]
fn test_pattern_matching() {
    let matcher = AttributeMatcher::new("main".to_string());

    // Test exact matches
    assert!(
        matcher
            .matches_pattern("packages.x86_64-linux.hello", "packages.x86_64-linux.hello")
            .unwrap()
    );

    // Test wildcard matches
    assert!(
        matcher
            .matches_pattern("packages.*.*", "packages.x86_64-linux.hello")
            .unwrap()
    );
    assert!(
        matcher
            .matches_pattern("*.x86_64-linux.*", "packages.x86_64-linux.hello")
            .unwrap()
    );
    assert!(
        matcher
            .matches_pattern("packages.x86_64-linux.*", "packages.x86_64-linux.hello")
            .unwrap()
    );

    // Test non-matches
    assert!(
        !matcher
            .matches_pattern("packages.aarch64-linux.*", "packages.x86_64-linux.hello")
            .unwrap()
    );
    assert!(
        !matcher
            .matches_pattern("checks.*.*", "packages.x86_64-linux.hello")
            .unwrap()
    );

    // Test different number of parts
    assert!(
        !matcher
            .matches_pattern("packages.*", "packages.x86_64-linux.hello")
            .unwrap()
    );
    assert!(
        !matcher
            .matches_pattern("packages.*.*.*", "packages.x86_64-linux.hello")
            .unwrap()
    );

    // Test 2-part patterns
    assert!(
        matcher
            .matches_pattern("devShell.*", "devShell.x86_64-linux")
            .unwrap()
    );
    assert!(
        matcher
            .matches_pattern("defaultPackage.x86_64-linux", "defaultPackage.x86_64-linux")
            .unwrap()
    );
}

#[test]
fn test_branch_filtering() {
    let matcher = AttributeMatcher::new("main".to_string());

    let main_entry = BuildEntry {
        includes: vec!["packages.*.*".to_string()],
        exclude: vec![],
        branch: Some("main".to_string()),
    };

    let dev_entry = BuildEntry {
        includes: vec!["checks.*.*".to_string()],
        exclude: vec![],
        branch: Some("dev".to_string()),
    };

    let no_branch_entry = BuildEntry {
        includes: vec!["devShells.*".to_string()],
        exclude: vec![],
        branch: None,
    };

    let builds = BuildsConfig::Multiple(vec![main_entry, dev_entry, no_branch_entry]);
    let applicable = matcher.get_applicable_build_entries(&builds);

    assert_eq!(applicable.len(), 2); // main entry + no_branch entry
    assert!(
        applicable
            .iter()
            .any(|e| e.includes.contains(&"packages.*.*".to_string()))
    );
    assert!(
        applicable
            .iter()
            .any(|e| e.includes.contains(&"devShells.*".to_string()))
    );
    assert!(
        !applicable
            .iter()
            .any(|e| e.includes.contains(&"checks.*.*".to_string()))
    );
}

#[test]
fn applicable_entries_keep_their_order() {
    let matcher = AttributeMatcher::new("main".to_string());
    let builds = BuildsConfig::Multiple(vec![
        rule(&["c.*"], &[], None),
        rule(&["x.*"], &[], Some("Main")),
        rule(&["a.*"], &[], Some("main")),
        rule(&["b.*"], &[], None),
    ]);
    let applicable = matcher.get_applicable_build_entries(&builds);
    let firsts: Vec<&str> = applicable.iter().map(|e| e.includes[0].as_str()).collect();
    assert_eq!(firsts, vec!["c.*", "a.*", "b.*"]);

    let single = BuildsConfig::Single(rule(&["a.*"], &[], Some("dev")));
    assert_eq!(matcher.get_applicable_build_entries(&single).len(), 0);
    let single = BuildsConfig::Single(rule(&["a.*"], &[], Some("main")));
    assert_eq!(matcher.get_applicable_build_entries(&single).len(), 1);
}

#[test]
fn different_arity_never_matches_and_never_fails() {
    let matcher = AttributeMatcher::new("main".to_string());
    let patterns = ["a", "a.b", "a.b.c", "a.b.c.d", "*.*.*.*.*", "", "."];
    let attrs = ["a", "a.b", "a.b.c", "a.b.c.d", "a.b.c.d.e", "", "."];
    for pattern in patterns {
        for attr in attrs {
            if pattern.split('.').count() != attr.split('.').count() {
                assert_eq!(matcher.matches_pattern(pattern, attr), Ok(false));
            }
        }
    }
    assert_eq!(matcher.matches_pattern("a.b.c.d", "a.b.c"), Ok(false));
}

#[test]
fn wildcards_match_every_attribute_of_their_arity() {
    let matcher = AttributeMatcher::new("main".to_string());
    for attr in ["a.b.c", "packages.x86_64-linux.hello", "..", "*.*.*", "a..c", "é.ü.ß"] {
        assert_eq!(matcher.matches_pattern("*.*.*", attr), Ok(true));
    }
    for attr in ["a.b", "devShell.x86_64-linux", ".", "*.*", "a."] {
        assert_eq!(matcher.matches_pattern("*.*", attr), Ok(true));
    }
}

#[test]
fn literal_pattern_matches_only_itself() {
    let matcher = AttributeMatcher::new("main".to_string());
    let pattern = "packages.x86_64-linux.hello";
    assert_eq!(matcher.matches_pattern(pattern, "packages.x86_64-linux.hello"), Ok(true));
    assert_eq!(matcher.matches_pattern(pattern, "checks.x86_64-linux.hello"), Ok(false));
    assert_eq!(matcher.matches_pattern(pattern, "packages.aarch64-linux.hello"), Ok(false));
    assert_eq!(matcher.matches_pattern(pattern, "packages.x86_64-linux.world"), Ok(false));
    assert_eq!(matcher.matches_pattern(pattern, "Packages.x86_64-linux.hello"), Ok(false));
}

#[test]
fn wildcard_stands_for_a_whole_segment_only() {
    let matcher = AttributeMatcher::new("main".to_string());
    assert_eq!(matcher.matches_pattern("packages.*.he*", "packages.x86_64-linux.hello"), Ok(false));
    assert_eq!(matcher.matches_pattern("packages.*.he*", "packages.x86_64-linux.he*"), Ok(true));
    assert_eq!(matcher.matches_pattern("packages.**.hello", "packages.x.hello"), Ok(false));
    assert_eq!(matcher.matches_pattern("a.*", "a."), Ok(true));
    assert_eq!(matcher.matches_pattern("a.", "a.b"), Ok(false));
}

#[test]
fn equal_arity_outside_two_and_three_is_an_error() {
    let matcher = AttributeMatcher::new("main".to_string());
    assert_eq!(matcher.matches_pattern("a.b.c.d", "a.b.c.d"), Err(invalid("a.b.c.d")));
    assert_eq!(matcher.matches_pattern("a", "x"), Err(invalid("a")));
    assert_eq!(matcher.matches_pattern("", ""), Err(invalid("")));
    assert_eq!(matcher.matches_pattern("*.*.*.*", "a.b.c.d"), Err(invalid("*.*.*.*")));
    let error = matcher.matches_pattern("a.b.c.d", "w.x.y.z").unwrap_err();
    assert_eq!(
        error.message(),
        "Pattern matching error: Invalid pattern format 'a.b.c.d', must be 'x.y' or 'x.y.z'"
    );
}

#[test]
fn no_config_selects_nothing() {
    let matcher = AttributeMatcher::new("main".to_string());
    let available = names(&["packages.x86_64-linux.hello"]);
    assert_eq!(matcher.get_matching_attributes(&None, &available), Ok(Vec::new()));
    // Not even a malformed attribute list can fail without a configuration.
    let available = names(&["a", "a.b.c.d"]);
    assert_eq!(matcher.get_matching_attributes(&None, &available), Ok(Vec::new()));
}

#[test]
fn default_config_selects_the_default_platform() {
    let matcher = AttributeMatcher::new("main".to_string());
    let available = names(&[
        "packages.x86_64-linux.hello",
        "packages.aarch64-linux.hello",
        "devShell.x86_64-linux",
        "devShell.aarch64-darwin",
        "nixosConfigurations.host",
        "homeConfigurations.me",
        "darwinConfigurations.mac",
        "checks.x86_64-linux.test",
        "defaultPackage.x86_64-linux",
        "overlays.default",
    ]);
    let selected = matcher.get_matching_attributes(&Some(GarnixConfig::default()), &available);
    assert_eq!(
        selected,
        Ok(names(&[
            "checks.x86_64-linux.test",
            "darwinConfigurations.mac",
            "defaultPackage.x86_64-linux",
            "devShell.x86_64-linux",
            "homeConfigurations.me",
            "nixosConfigurations.host",
            "packages.x86_64-linux.hello",
        ]))
    );
}

#[test]
fn rules_of_other_branches_select_nothing() {
    let available = names(&[
        "packages.x86_64-linux.hello",
        "checks.x86_64-linux.test",
        "devShells.x86_64-linux",
    ]);
    let rules = || {
        config(vec![
            rule(&["packages.*.*"], &[], Some("main")),
            rule(&["checks.*.*"], &[], Some("dev")),
            rule(&["devShells.*"], &[], None),
        ])
    };
    let on_main = AttributeMatcher::new("main".to_string());
    assert_eq!(
        on_main.get_matching_attributes(&rules(), &available),
        Ok(names(&["devShells.x86_64-linux", "packages.x86_64-linux.hello"]))
    );
    let on_dev = AttributeMatcher::new("dev".to_string());
    assert_eq!(
        on_dev.get_matching_attributes(&rules(), &available),
        Ok(names(&["checks.x86_64-linux.test", "devShells.x86_64-linux"]))
    );
    let elsewhere = AttributeMatcher::new("MAIN".to_string());
    assert_eq!(
        elsewhere.get_matching_attributes(&rules(), &available),
        Ok(names(&["devShells.x86_64-linux"]))
    );
}

#[test]
fn malformed_pattern_of_another_branch_is_not_looked_at() {
    let available = names(&["a.b.c.d", "packages.x86_64-linux.hello"]);
    let rules = config(vec![
        rule(&["w.x.y.z"], &[], Some("dev")),
        rule(&["packages.*.*"], &[], None),
    ]);
    let on_main = AttributeMatcher::new("main".to_string());
    assert_eq!(
        on_main.get_matching_attributes(&rules, &available),
        Ok(names(&["packages.x86_64-linux.hello"]))
    );
    let on_dev = AttributeMatcher::new("dev".to_string());
    assert_eq!(on_dev.get_matching_attributes(&rules, &available), Err(invalid("w.x.y.z")));
}

#[test]
fn later_rule_brings_back_what_an_earlier_rule_excluded() {
    let matcher = AttributeMatcher::new("main".to_string());
    let available = names(&["packages.x86_64-linux.hello", "packages.x86_64-linux.world"]);
    let rules = config(vec![
        rule(&["packages.*.*"], &[], None),
        rule(&[], &["packages.x86_64-linux.hello"], None),
        rule(&["packages.x86_64-linux.hello"], &[], None),
    ]);
    assert_eq!(
        matcher.get_matching_attributes(&rules, &available),
        Ok(names(&["packages.x86_64-linux.hello", "packages.x86_64-linux.world"]))
    );
    let rules = config(vec![
        rule(&["packages.*.*"], &[], None),
        rule(&["packages.x86_64-linux.hello"], &[], None),
        rule(&[], &["packages.x86_64-linux.hello"], None),
    ]);
    assert_eq!(
        matcher.get_matching_attributes(&rules, &available),
        Ok(names(&["packages.x86_64-linux.world"]))
    );
}

#[test]
fn a_rule_applies_its_excludes_after_its_includes() {
    let matcher = AttributeMatcher::new("main".to_string());
    let available = names(&["packages.x86_64-linux.hello", "packages.x86_64-linux.world"]);
    let rules = config(vec![rule(&["packages.*.*"], &["*.*.hello"], None)]);
    assert_eq!(
        matcher.get_matching_attributes(&rules, &available),
        Ok(names(&["packages.x86_64-linux.world"]))
    );
    // Excluding what is not there changes nothing.
    let rules = config(vec![rule(&["*.*.world"], &["*.*.hello", "checks.*.*"], None)]);
    assert_eq!(
        matcher.get_matching_attributes(&rules, &available),
        Ok(names(&["packages.x86_64-linux.world"]))
    );
}

#[test]
fn result_is_sorted_and_without_duplicates() {
    let matcher = AttributeMatcher::new("main".to_string());
    let available = names(&[
        "packages.x86_64-linux.zsh",
        "checks.x86_64-linux.b",
        "packages.x86_64-linux.Zsh",
        "packages.x86_64-linux.zsh",
        "checks.x86_64-linux.a",
        "packages.x86_64-linux.a-b",
        "packages.x86_64-linux.a",
        "devShell.x86_64-linux",
    ]);
    let rules = config(vec![
        rule(&["packages.*.*", "*.x86_64-linux.*", "*.*"], &[], None),
        rule(&["checks.*.*"], &[], None),
    ]);
    let selected = matcher.get_matching_attributes(&rules, &available).unwrap();
    let mut expected = available.clone();
    expected.sort();
    expected.dedup();
    assert_eq!(selected, expected);
    assert_eq!(
        selected,
        names(&[
            "checks.x86_64-linux.a",
            "checks.x86_64-linux.b",
            "devShell.x86_64-linux",
            "packages.x86_64-linux.Zsh",
            "packages.x86_64-linux.a",
            "packages.x86_64-linux.a-b",
            "packages.x86_64-linux.zsh",
        ])
    );
}

#[test]
fn order_of_patterns_and_attributes_does_not_change_the_result() {
    let matcher = AttributeMatcher::new("main".to_string());
    let available = names(&["b.x.1", "a.x.1", "c.y", "a.y.2", "d.z"]);
    let shuffled = names(&["d.z", "a.y.2", "c.y", "a.x.1", "b.x.1", "c.y"]);
    let first = config(vec![
        rule(&["a.*.*", "*.y", "b.x.1"], &["*.y.*", "*.z"], None),
        rule(&["d.*"], &[], Some("main")),
    ]);
    let second = config(vec![
        rule(&["b.x.1", "*.y", "a.*.*", "*.y"], &["*.z", "*.y.*"], None),
        rule(&["d.*"], &[], Some("main")),
    ]);
    let expected = Ok(names(&["a.x.1", "b.x.1", "c.y", "d.z"]));
    assert_eq!(matcher.get_matching_attributes(&first, &available), expected);
    assert_eq!(matcher.get_matching_attributes(&second, &available), expected);
    assert_eq!(matcher.get_matching_attributes(&first, &shuffled), expected);
    assert_eq!(matcher.get_matching_attributes(&second, &shuffled), expected);
    assert_eq!(
        matcher.get_matching_attributes(&first, &available),
        matcher.get_matching_attributes(&first, &available)
    );
}

#[test]
fn first_malformed_pattern_is_reported() {
    let matcher = AttributeMatcher::new("main".to_string());
    let available = names(&["a.b.c", "a.b.c.d", "a"]);
    // The exclude pattern of the first rule comes before the second rule.
    let rules = config(vec![
        rule(&["a.*.*"], &["*"], None),
        rule(&["w.x.y.z"], &[], None),
    ]);
    assert_eq!(matcher.get_matching_attributes(&rules, &available), Err(invalid("*")));
    // Include patterns come before exclude patterns.
    let rules = config(vec![rule(&["a.*.*", "w.x.y.z"], &["*"], None)]);
    assert_eq!(matcher.get_matching_attributes(&rules, &available), Err(invalid("w.x.y.z")));
    // A malformed pattern is harmless while no attribute has its arity.
    let rules = config(vec![rule(&["a.*.*", "1.2.3.4.5"], &["q"], None)]);
    let available = names(&["a.b.c", "a.b.c.d"]);
    assert_eq!(matcher.get_matching_attributes(&rules, &available), Ok(names(&["a.b.c"])));
}

#[test]
fn single_rule_config_is_one_rule() {
    let matcher = AttributeMatcher::new("main".to_string());
    let available = names(&["packages.x86_64-linux.hello", "checks.x86_64-linux.test"]);
    let single = Some(GarnixConfig {
        builds: BuildsConfig::Single(rule(&["checks.*.*"], &[], None)),
        incrementalize_builds: IncrementalizeBuilds::Boolean(true),
        servers: Vec::new(),
    });
    assert_eq!(
        matcher.get_matching_attributes(&single, &available),
        Ok(names(&["checks.x86_64-linux.test"]))
    );
    let empty = config(Vec::new());
    assert_eq!(matcher.get_matching_attributes(&empty, &available), Ok(Vec::new()));
    assert_eq!(matcher.get_matching_attributes(&single, &[]), Ok(Vec::new()));
}
