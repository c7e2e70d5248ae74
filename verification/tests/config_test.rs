use super_release::config::branch::{
    parse_maintenance_range, resolve_branch_context_for, BranchConfig, BranchDef, MaintenanceRange,
    PrereleaseSetting,
};
use super_release::config::schema::{config_candidates, detect_format, ConfigFormat};
use super_release::config::{glob_match, render_tag_template, tag_version, Config};
use super_release::version::Version;

fn def(name: &str, prerelease: PrereleaseSetting, maintenance: bool) -> BranchConfig {
    BranchConfig::Full(BranchDef {
        name: name.into(),
        prerelease,
        maintenance,
        range: None,
        packages: Vec::new(),
    })
}

#[test]
fn test_simple_branch() {
    let bc = BranchConfig::Name("main".into());
    assert_eq!(bc.name(), "main");
    assert!(bc.resolve_prerelease("main").is_none());
    assert!(!bc.is_maintenance());
}

#[test]
fn test_prerelease_fixed_channel() {
    let bc = def("beta", PrereleaseSetting::Channel("beta".into()), false);
    assert_eq!(bc.resolve_prerelease("beta").as_deref(), Some("beta"));
}

#[test]
fn test_prerelease_true_uses_branch_name() {
    let bc = def("test-*", PrereleaseSetting::Flag(true), false);
    assert_eq!(bc.resolve_prerelease("test-hello").as_deref(), Some("test-hello"));
    assert_ne!(bc.resolve_prerelease("test-hello").as_deref(), Some("true"));
}

#[test]
fn test_prerelease_false_is_stable() {
    let bc = def("staging", PrereleaseSetting::Flag(false), false);
    assert!(bc.resolve_prerelease("staging").is_none());
}

#[test]
fn test_maintenance() {
    let bc = def("1.x", PrereleaseSetting::Disabled, true);
    assert!(bc.is_maintenance());
    assert!(bc.resolve_prerelease("1.x").is_none());
}

#[test]
fn test_parse_maintenance_range() {
    assert_eq!(parse_maintenance_range("1.x"), Some(MaintenanceRange::Major(1)));
    assert_eq!(parse_maintenance_range("2.x"), Some(MaintenanceRange::Major(2)));
    assert_eq!(parse_maintenance_range("1.5.x"), Some(MaintenanceRange::MajorMinor(1, 5)));
    assert_eq!(parse_maintenance_range("2.0.x"), Some(MaintenanceRange::MajorMinor(2, 0)));
    assert_eq!(parse_maintenance_range("main"), None);
    assert_eq!(parse_maintenance_range("beta"), None);
}

#[test]
fn test_glob_match_patterns() {
    assert!(glob_match("main", "main"));
    assert!(!glob_match("main", "master"));
    assert!(glob_match("test-*", "test-foo"));
    assert!(!glob_match("test-*", "dev-foo"));
    assert!(glob_match("*.x", "2.x"));
    assert!(glob_match("@acme/*", "@acme/core"));
}

#[test]
fn test_glob_match() {
    assert!(glob_match("main", "main"));
    assert!(!glob_match("main", "master"));
    assert!(glob_match("*.x", "2.x"));
    assert!(glob_match("*.x", "15.x"));
    assert!(glob_match("test-*", "test-foo"));
    assert!(glob_match("test-*", "test-tsmain-1460"));
    assert!(!glob_match("test-*", "dev-foo"));
    assert!(glob_match("@acme/*", "@acme/core"));
    assert!(glob_match("@acme/*", "@acme/utils"));
    assert!(!glob_match("@acme/*", "@other/core"));
    assert!(glob_match("{@acme/*,@tools/*}", "@acme/core"));
    assert!(glob_match("{@acme/*,@tools/*}", "@tools/cli"));
    assert!(!glob_match("{@acme/*,@tools/*}", "@other/lib"));
    assert!(glob_match("pkg-?", "pkg-a"));
    assert!(!glob_match("pkg-?", "pkg-ab"));
}

#[test]
fn mod_test_default_config() {
    let config = Config::default();
    assert_eq!(config.branches.len(), 2);
    assert_eq!(config.branches[0].name(), "main");
    assert_eq!(config.branches[1].name(), "master");
    assert_eq!(config.tag_format, "v{version}");
    assert_eq!(config.tag_format_package, "{name}/v{version}");
    assert_eq!(config.steps.len(), 2);
    assert_eq!(config.steps[0].name, "changelog");
    assert_eq!(config.steps[1].name, "npm");
}

#[test]
fn test_format_tag_root() {
    let config = Config::default();
    assert_eq!(config.format_tag("my-app", &Version::new(1, 2, 3), true), "v1.2.3");
}

#[test]
fn test_format_tag_subpackage() {
    let config = Config::default();
    assert_eq!(config.format_tag("@myorg/core", &Version::new(1, 2, 3), false), "@myorg/core/v1.2.3");
}

#[test]
fn test_format_tag_custom_templates() {
    let config = Config {
        tag_format: "release-{version}".into(),
        tag_format_package: "{name}@{version}".into(),
        ..Config::default()
    };
    let v = Version::new(2, 0, 0);
    assert_eq!(config.format_tag("my-app", &v, true), "release-2.0.0");
    assert_eq!(config.format_tag("@acme/lib", &v, false), "@acme/lib@2.0.0");
}

#[test]
fn test_format_tag_semantic_release_compat() {
    let config = Config {
        tag_format: "v{version}".into(),
        tag_format_package: "{name}@{version}".into(),
        ..Config::default()
    };
    let v = Version::new(1, 5, 0);
    assert_eq!(config.format_tag("root", &v, true), "v1.5.0");
    assert_eq!(config.format_tag("@scope/pkg", &v, false), "@scope/pkg@1.5.0");
}

#[test]
fn test_tag_match_regex() {
    let config = Config::default();
    assert_eq!(config.tag_version("my-app", true, "v1.2.3").as_deref(), Some("1.2.3"));
    assert_eq!(config.tag_version("my-app", true, "my-app/v1.2.3"), None);
    assert_eq!(config.tag_version("@acme/core", false, "@acme/core/v1.2.3").as_deref(), Some("1.2.3"));
    assert_eq!(config.tag_version("@acme/core", false, "v1.2.3"), None);
    assert_eq!(
        config.tag_version("@acme/core", false, "@acme/core/v2.0.0-beta.1").as_deref(),
        Some("2.0.0-beta.1")
    );
}

#[test]
fn test_tag_match_regex_custom() {
    let config = Config {
        tag_format: "{name}-v{version}".into(),
        tag_format_package: "{name}@{version}".into(),
        ..Config::default()
    };
    assert_eq!(config.tag_version("my-app", true, "my-app-v3.0.0").as_deref(), Some("3.0.0"));
    assert!(config.tag_version("@acme/lib", false, "@acme/lib@1.0.0").is_some());
}

#[test]
fn test_detect_format() {
    assert_eq!(detect_format("foo.yaml"), ConfigFormat::Yaml);
    assert_eq!(detect_format("foo.yml"), ConfigFormat::Yaml);
    assert_eq!(detect_format("foo.json"), ConfigFormat::Json);
    assert_eq!(detect_format("foo.jsonc"), ConfigFormat::Json);
    assert_eq!(detect_format("foo"), ConfigFormat::Yaml);
}

#[test]
fn tag_version_requires_digit_and_template_placeholder() {
    assert_eq!(tag_version("v{version}", "x", "vbeta"), None);
    assert_eq!(tag_version("release", "x", "release"), None);
    assert_eq!(tag_version("{name}@{version}", "@a/b", "@a/b@1.0.0").as_deref(), Some("1.0.0"));
    assert_eq!(render_tag_template("{name}/v{version}", "core", "1.2.3"), "core/v1.2.3");
}

#[test]
fn branch_context_resolves_first_matching_branch() {
    let branches = vec![
        BranchConfig::Name("main".into()),
        def("beta", PrereleaseSetting::Channel("beta".into()), false),
        def("1.x", PrereleaseSetting::Disabled, true),
    ];
    let ctx = resolve_branch_context_for(&branches, "beta").unwrap();
    assert_eq!(ctx.prerelease.as_deref(), Some("beta"));
    assert!(!ctx.maintenance);
    let ctx = resolve_branch_context_for(&branches, "1.x").unwrap();
    assert!(ctx.maintenance);
    assert_eq!(ctx.maintenance_range, Some(MaintenanceRange::Major(1)));
    assert!(resolve_branch_context_for(&branches, "feature/x").is_none());
}

#[test]
fn config_candidates_list_yaml_first() {
    let c = config_candidates();
    assert!(!c.is_empty());
    assert_eq!(c[0].1, ConfigFormat::Yaml);
}
