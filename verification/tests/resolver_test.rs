use super_release::commit::BumpLevel;
use super_release::package::Package;
use super_release::resolver::{create_resolver, package_from_manifest, update_manifest_version, NodeResolver};
use super_release::version::{PackageRelease, Version};

fn pairs(items: &[(&str, &str)]) -> Vec<(String, String)> {
    items.iter().map(|(a, b)| (a.to_string(), b.to_string())).collect()
}

fn manifest(path: &str, name: &str, deps: &[(&str, &str)], dev: &[(&str, &str)], opt: &[(&str, &str)]) -> Package {
    package_from_manifest(path, Some(name.into()), Some("1.0.0".into()), pairs(deps), pairs(dev), pairs(opt))
}

#[test]
fn update_manifest_version_changes_only_the_version() {
    let before = r#"{"name":"@acme/core","version":"1.0.0","dependencies":{"@acme/utils":"^1.0.0"}}"#;
    assert_eq!(
        update_manifest_version(before, &Version::new(1, 1, 0)).as_deref(),
        Some(r#"{"name":"@acme/core","version":"1.1.0","dependencies":{"@acme/utils":"^1.0.0"}}"#)
    );
}

#[test]
fn update_manifest_version_preserves_formatting() {
    let before = "{\n  \"name\": \"my-pkg\",\n  \"version\": \"1.0.0\",\n  \"private\": true\n}\n";
    assert_eq!(
        update_manifest_version(before, &Version::new(2, 0, 0)).as_deref(),
        Some("{\n  \"name\": \"my-pkg\",\n  \"version\": \"2.0.0\",\n  \"private\": true\n}\n")
    );
}

#[test]
fn update_manifest_version_preserves_workspace_protocol() {
    let before = r#"{"name":"@acme/app","version":"1.0.0","dependencies":{"@acme/core":"workspace:*"}}"#;
    assert_eq!(
        update_manifest_version(before, &Version::new(2, 0, 0)).as_deref(),
        Some(r#"{"name":"@acme/app","version":"2.0.0","dependencies":{"@acme/core":"workspace:*"}}"#)
    );
}

#[test]
fn update_manifest_version_without_field_or_change() {
    assert_eq!(update_manifest_version(r#"{"name":"x"}"#, &Version::new(1, 0, 0)), None);
    assert_eq!(update_manifest_version(r#"{"version":"1.0.0"}"#, &Version::new(1, 0, 0)), None);
}

#[test]
fn manifest_missing_name_is_skipped_with_warning() {
    let p = package_from_manifest("packages/x/package.json", None, Some("1.0.0".into()), Vec::new(), Vec::new(), Vec::new());
    assert!(p.skipped);
    assert!(p.warning.as_ref().unwrap().contains("no \"name\" field"));
    assert_eq!(p.name, "packages/x");
    let root = package_from_manifest("package.json", None, None, Vec::new(), Vec::new(), Vec::new());
    assert_eq!(root.name, ".");
    assert!(root.is_root);
}

#[test]
fn manifest_invalid_version_warns_and_defaults() {
    let p = package_from_manifest("package.json", Some("my-pkg".into()), Some("not-semver".into()), Vec::new(), Vec::new(), Vec::new());
    assert_eq!(p.name, "my-pkg");
    assert_eq!(p.version, Version::new(0, 0, 0));
    assert!(p.warning.as_ref().unwrap().contains("invalid version"));
    assert!(p.warning.as_ref().unwrap().starts_with("invalid version \"not-semver\": "));
}

#[test]
fn manifest_missing_version_warns_and_defaults() {
    let p = package_from_manifest("package.json", Some("my-pkg".into()), None, Vec::new(), Vec::new(), Vec::new());
    assert_eq!(p.version, Version::new(0, 0, 0));
    assert!(p.warning.as_ref().unwrap().contains("no \"version\" field"));
}

#[test]
fn manifest_valid_package_has_no_warning() {
    let p = package_from_manifest("packages/core/package.json", Some("my-pkg".into()), Some("1.2.3".into()), Vec::new(), Vec::new(), Vec::new());
    assert_eq!(p.version, Version::new(1, 2, 3));
    assert!(p.warning.is_none());
    assert_eq!(p.path, "packages/core");
    assert_eq!(p.manifest_path, "packages/core/package.json");
    assert!(!p.is_root);
}

#[test]
fn resolve_dependencies_keeps_local_ones() {
    let mut packages = vec![
        manifest("packages/core/package.json", "@acme/core", &[("lodash", "^4")], &[], &[]),
        manifest(
            "packages/app/package.json",
            "@acme/app",
            &[("@acme/core", "^1.0.0"), ("react", "^18")],
            &[("@acme/core", "workspace:*")],
            &[("@acme/ui", "^1")],
        ),
        manifest("packages/ui/package.json", "@acme/ui", &[], &[], &[]),
    ];
    NodeResolver.resolve_dependencies(&mut packages);
    assert!(packages[0].local_dependencies.is_empty());
    assert_eq!(
        packages[1].local_dependencies,
        pairs(&[("@acme/core", "workspace:*"), ("@acme/ui", "^1")])
    );
    assert_eq!(packages[1].dependencies.len(), 2);
}

#[test]
fn bump_targets_find_each_release_package() {
    let packages = vec![
        manifest("packages/core/package.json", "core", &[], &[], &[]),
        manifest("packages/app/package.json", "app", &[], &[], &[]),
    ];
    let release = |name: &str| PackageRelease {
        package_name: name.into(),
        current_version: Version::new(1, 0, 0),
        next_version: Version::new(1, 0, 1),
        bump: BumpLevel::Patch,
        commits: Vec::new(),
        is_root: false,
        propagated_from: None,
    };
    assert_eq!(NodeResolver.bump_targets(&packages, &[release("app"), release("core")]), Ok(vec![1, 0]));
    assert_eq!(NodeResolver.bump_targets(&packages, &[release("app"), release("ghost")]), Err(1));
    assert_eq!(create_resolver("node"), Some(NodeResolver));
    assert_eq!(create_resolver("cargo"), None);
}
