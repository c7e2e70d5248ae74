use super_release::commit::BumpLevel;
use super_release::config::Config;
use super_release::forge::RepoRef;
use super_release::package::{file_to_package, topological_sort, OrderError, Package};
use super_release::pm::{from_package_manager_field, publish_command, PackageManager};
use super_release::preview::{render_preview_markdown, PREVIEW_MARKER};
use super_release::step::exec::{release_command, resolve_files};
use super_release::step::github::comments::{self, ReleasedIn};
use super_release::step::github::{render_release_name, render_success_comment, GithubOptions};
use super_release::step::npm::{classify_version_check, dependency_levels, format_view_command, select_to_publish, VersionCheckResult};
use super_release::step::subprocess::{format_command, truncate, CommandFailure};
use super_release::step::{create_step, resolve_template, StepKind};
use super_release::version::{PackageRelease, Version};

fn make_pkg(name: &str, path: &str, local_deps: &[(&str, &str)]) -> Package {
    Package {
        name: name.to_string(),
        version: Version::new(1, 0, 0),
        path: path.to_string(),
        manifest_path: if path.is_empty() { "package.json".to_string() } else { format!("{}/package.json", path) },
        is_root: path.is_empty(),
        local_dependencies: local_deps.iter().map(|(n, v)| (n.to_string(), v.to_string())).collect(),
        dependencies: Vec::new(),
        dev_dependencies: Vec::new(),
        optional_dependencies: Vec::new(),
        warning: None,
        skipped: false,
    }
}

fn release(name: &str, cur: (u64, u64, u64), next: (u64, u64, u64)) -> PackageRelease {
    PackageRelease {
        package_name: name.into(),
        current_version: Version::new(cur.0, cur.1, cur.2),
        next_version: Version::new(next.0, next.1, next.2),
        bump: BumpLevel::Minor,
        commits: vec![],
        is_root: true,
        propagated_from: None,
    }
}

#[test]
fn test_file_to_package() {
    let packages = vec![
        make_pkg("root", "", &[]),
        make_pkg("@myorg/core", "packages/core", &[]),
        make_pkg("@myorg/utils", "packages/utils", &[]),
    ];
    assert_eq!(file_to_package("packages/core/src/index.ts", &packages).unwrap().name, "@myorg/core");
    assert_eq!(file_to_package("packages/utils/lib/helpers.ts", &packages).unwrap().name, "@myorg/utils");
    assert_eq!(file_to_package("README.md", &packages).unwrap().name, "root");
}

#[test]
fn test_topological_sort() {
    let packages = vec![
        make_pkg("a", "packages/a", &[]),
        make_pkg("b", "packages/b", &[("a", "^1.0.0")]),
        make_pkg("c", "packages/c", &[("b", "^1.0.0")]),
    ];
    let order = topological_sort(&packages).unwrap();
    let pos_a = order.iter().position(|n| n == "a").unwrap();
    let pos_b = order.iter().position(|n| n == "b").unwrap();
    let pos_c = order.iter().position(|n| n == "c").unwrap();
    assert!(pos_a < pos_b);
    assert!(pos_b < pos_c);
}

#[test]
fn test_circular_dependency_detected() {
    let packages = vec![
        make_pkg("a", "packages/a", &[("b", "^1.0.0")]),
        make_pkg("b", "packages/b", &[("a", "^1.0.0")]),
    ];
    assert!(topological_sort(&packages).is_err());
    assert_eq!(topological_sort(&packages), Err(OrderError::CircularDependency));
}

#[test]
fn npm_test_dependency_levels() {
    let packages = vec![
        make_pkg("a", "packages/a", &[]),
        make_pkg("b", "packages/b", &[("a", "^1.0.0")]),
        make_pkg("c", "packages/c", &[("a", "^1.0.0")]),
        make_pkg("d", "packages/d", &[("b", "^1.0.0"), ("c", "^1.0.0")]),
    ];
    let releases: Vec<PackageRelease> =
        ["a", "b", "c", "d"].iter().map(|n| release(n, (1, 0, 0), (1, 1, 0))).collect();
    let order = topological_sort(&packages).unwrap();
    let levels = dependency_levels(&order, &packages, &releases);
    assert_eq!(levels.len(), 3);
    assert_eq!(levels[0], vec!["a"]);
    assert!(levels[1].contains(&"b".to_string()));
    assert!(levels[1].contains(&"c".to_string()));
    assert_eq!(levels[2], vec!["d"]);
}

#[test]
fn dependency_levels_skip_unreleased_dependencies() {
    let packages = vec![make_pkg("a", "packages/a", &[]), make_pkg("b", "packages/b", &[("a", "^1.0.0")])];
    let releases = vec![release("b", (1, 0, 0), (1, 0, 1))];
    let order = topological_sort(&packages).unwrap();
    let levels = dependency_levels(&order, &packages, &releases);
    assert_eq!(levels, vec![vec!["b".to_string()]]);
}

#[test]
fn test_truncate() {
    assert_eq!(truncate("short", 60), "short");
    assert_eq!(truncate("a".repeat(100).as_str(), 20), format!("{}...", "a".repeat(17)));
}

#[test]
fn subprocess_test_truncate() {
    assert_eq!(truncate("short", 60), "short");
    assert_eq!(truncate("a".repeat(100).as_str(), 20), format!("{}...", "a".repeat(17)));
}

#[test]
fn format_command_quotes_spaced_args() {
    let args = vec!["publish".to_string(), "--tag".to_string(), "a b".to_string()];
    assert_eq!(format_command("npm", &args), "npm publish --tag \"a b\"");
    let f = CommandFailure::new("ctx".into(), "boom".into(), vec!["1".into(), "2".into(), "3".into()]);
    assert_eq!(f.tail(2), vec!["2".to_string(), "3".to_string()]);
}

#[test]
fn test_display() {
    assert_eq!(PackageManager::Npm.to_string(), "npm");
    assert_eq!(PackageManager::Yarn.to_string(), "yarn");
    assert_eq!(PackageManager::Pnpm.to_string(), "pnpm");
}

#[test]
fn package_manager_detection_order() {
    assert_eq!(PackageManager::detect(Some("pnpm@9.0.0"), false, true), PackageManager::Pnpm);
    assert_eq!(PackageManager::detect(None, true, true), PackageManager::Pnpm);
    assert_eq!(PackageManager::detect(None, false, true), PackageManager::Yarn);
    assert_eq!(PackageManager::detect(None, false, false), PackageManager::Npm);
    assert_eq!(PackageManager::detect(Some("bun@1"), false, false), PackageManager::Npm);
    assert_eq!(from_package_manager_field("yarn@4.1.0"), Some(PackageManager::Yarn));
    assert_eq!(from_package_manager_field("bun@1"), None);
}

#[test]
fn publish_command_arguments() {
    let (prog, args) = publish_command(PackageManager::Yarn, Some("public"), None, Some("next"), true, &vec!["--x".into()]);
    assert_eq!(prog, "yarn");
    assert_eq!(args, vec!["npm", "publish", "--access", "public", "--tag", "next", "--provenance", "--x"]);
    let (prog, args) = publish_command(PackageManager::Pnpm, None, None, None, false, &Vec::new());
    assert_eq!(prog, "pnpm");
    assert_eq!(args, vec!["publish", "--no-git-checks"]);
}

#[test]
fn version_check_classification() {
    assert_eq!(
        classify_version_check(true, "1.2.3\n", "", "1.2.3"),
        VersionCheckResult::Published("1.2.3".into())
    );
    assert_eq!(classify_version_check(true, "", "", "1.2.3"), VersionCheckResult::NotFound("".into()));
    assert_eq!(
        classify_version_check(false, "", "npm ERR! code E404", "1.2.3"),
        VersionCheckResult::NotFound("npm ERR! code E404".into())
    );
    assert_eq!(
        classify_version_check(false, "", "ENEEDAUTH", "1.2.3"),
        VersionCheckResult::Error("ENEEDAUTH".into())
    );
    assert_eq!(format_view_command("pkg", "1.0.0", Some("https://r")), "npm view pkg@1.0.0 version --registry https://r");
}

#[test]
fn release_name_defaults_to_tag() {
    assert_eq!(render_release_name(None, "pkg", "1.2.3", "pkg/v1.2.3"), "pkg/v1.2.3");
}

#[test]
fn release_name_template_substitutes() {
    assert_eq!(render_release_name(Some("{name} {version}"), "pkg", "1.2.3", "pkg/v1.2.3"), "pkg 1.2.3");
    assert_eq!(render_release_name(Some("Release {tag}"), "pkg", "1.2.3", "pkg/v1.2.3"), "Release pkg/v1.2.3");
}

#[test]
fn success_comment_default_lists_releases() {
    let body = render_success_comment(None, &vec!["v1.1.0".into(), "core/v2.0.0".into()]);
    assert!(body.contains("`v1.1.0`"));
    assert!(body.contains("`core/v2.0.0`"));
}

#[test]
fn github_success_comment_template_substitutes() {
    let body = render_success_comment(Some("Shipped in {tag} ({releases})"), &vec!["v1.1.0".into()]);
    assert_eq!(body, "Shipped in v1.1.0 (`v1.1.0`)");
}

#[test]
fn options_default_enables_comments_and_released_label() {
    let opts = GithubOptions::default();
    assert!(opts.comment_on_success);
    assert_eq!(opts.released_labels, vec!["released".to_string()]);
}

fn released_in(name: &str, tag: &str) -> ReleasedIn {
    ReleasedIn { name: name.into(), tag: tag.into() }
}

fn test_repo() -> RepoRef {
    RepoRef { owner: "o".into(), repo: "r".into(), host: "github.com".into() }
}

#[test]
fn success_comment_default_links_releases_by_name() {
    let releases = vec![released_in("v1.1.0", "super-release/v1.1.0"), released_in("core-v2.0.0", "core/v2.0.0")];
    let body = comments::render_success_comment(None, &releases, Some(&test_repo()));
    assert!(body.contains("[v1.1.0](https://github.com/o/r/releases/tag/super-release%2Fv1.1.0)"));
    assert!(body.contains("[core-v2.0.0](https://github.com/o/r/releases/tag/core%2Fv2.0.0)"));
}

#[test]
fn success_comment_without_repo_lists_names() {
    let releases = vec![released_in("v1.1.0", "super-release/v1.1.0")];
    let body = comments::render_success_comment(None, &releases, None);
    assert!(body.contains("`v1.1.0`"));
    assert!(!body.contains("http"));
}

#[test]
fn comments_success_comment_template_substitutes() {
    let releases = vec![released_in("v1.1.0", "super-release/v1.1.0")];
    let body = comments::render_success_comment(Some("Shipped in {tag} ({releases})"), &releases, Some(&test_repo()));
    assert_eq!(
        body,
        "Shipped in super-release/v1.1.0 \
         ([v1.1.0](https://github.com/o/r/releases/tag/super-release%2Fv1.1.0))"
    );
}

#[test]
fn empty_releases_render_no_release_message() {
    let md = render_preview_markdown(&Vec::new(), &Vec::new(), &Config::default());
    assert!(md.starts_with(PREVIEW_MARKER));
    assert!(md.contains("No release will be triggered"));
}

#[test]
fn renders_marker_table_and_details_per_release() {
    let releases = vec![release("root-pkg", (1, 0, 0), (1, 1, 0)), release("other-pkg", (2, 3, 1), (2, 3, 2))];
    let notes = vec![Some("notes a".to_string()), Some("notes b".to_string())];
    let md = render_preview_markdown(&releases, &notes, &Config::default());
    assert!(md.starts_with(PREVIEW_MARKER));
    assert!(md.contains("| `root-pkg` |"));
    assert!(md.contains("| `other-pkg` |"));
    assert!(md.contains("`1.0.0` → `1.1.0`"));
    assert_eq!(md.matches("<details>").count(), 2);
}

#[test]
fn notes_shown_only_for_changelog_covered_packages() {
    let releases = vec![release("root-pkg", (1, 0, 0), (1, 1, 0)), release("other-pkg", (2, 3, 1), (2, 3, 2))];
    let notes = vec![Some("### Features".to_string()), None];
    let md = render_preview_markdown(&releases, &notes, &Config::default());
    assert!(md.contains("| `root-pkg` |"));
    assert!(md.contains("| `other-pkg` |"));
    assert_eq!(md.matches("<details>").count(), 1);
    assert!(md.contains("<code>root-pkg@1.1.0</code>"));
    assert!(!md.contains("<code>other-pkg@2.3.2</code>"));
}

#[test]
fn exec_command_and_files_substitute_placeholders() {
    let r = release("@acme/core", (1, 0, 0), (1, 1, 0));
    assert_eq!(release_command("echo {name}@{version} on {channel}", &r, "beta"), "echo @acme/core@1.1.0 on beta");
    let files = resolve_files(&vec!["{name}/CHANGELOG-{version}.md".to_string()], &[r]);
    assert_eq!(files, vec!["@acme/core/CHANGELOG-1.1.0.md".to_string()]);
}

#[test]
fn step_kinds_and_templates() {
    assert_eq!(create_step("npm"), Some(StepKind::Npm));
    assert_eq!(create_step("bogus"), None);
    assert_eq!(resolve_template(Some("inline"), Some("from file".into())).as_deref(), Some("from file"));
    assert_eq!(resolve_template(Some("inline"), None).as_deref(), Some("inline"));
    assert_eq!(resolve_template(None, None), None);
}

#[test]
fn select_to_publish_keeps_not_found_in_order() {
    let checks = vec![
        VersionCheckResult::NotFound("1.0.1".into()),
        VersionCheckResult::Published("2.0.0".into()),
        VersionCheckResult::NotFound("3.0.0".into()),
    ];
    assert_eq!(select_to_publish(&checks), Ok(vec![0, 2]));
    let none: Vec<VersionCheckResult> = vec![VersionCheckResult::Published("1.0.0".into())];
    assert_eq!(select_to_publish(&none), Ok(vec![]));
}

#[test]
fn select_to_publish_aborts_on_registry_errors() {
    let checks = vec![
        VersionCheckResult::NotFound("1.0.1".into()),
        VersionCheckResult::Error("E401".into()),
        VersionCheckResult::Published("2.0.0".into()),
        VersionCheckResult::Error("ETIMEDOUT".into()),
    ];
    assert_eq!(select_to_publish(&checks), Err(vec![1, 3]));
}
