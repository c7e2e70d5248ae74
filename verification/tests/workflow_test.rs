use super_release::changelog::{
    changelog_body, changelog_contains_version, generate_release_notes, notes_outcome, pending_release_notes, NotesError,
};
use super_release::commit::{parse_conventional_commit, BumpLevel, ConventionalCommit};
use super_release::config::branch::BranchContext;
use super_release::config::{Config, StepConfig};
use super_release::git::{extract_version_from_tag, parse_git_log, version_matches_branch, TagIndex, TagScan};
use super_release::package::Package;
use super_release::plan::{commit_boundary, plan_ready, plan_releases, PkgTagInfo, PlanError};
use super_release::run::{
    apply_branch_package_filter, changelog_covers, commit_message, filter_for_step, show_target, shown_version,
    step_covers_package, step_runs_on_branch, tag_message, TargetError,
};
use super_release::version::{cliff_inputs, PackageRelease, Version};

fn v(text: &str) -> Version {
    Version::parse(text).unwrap()
}

fn pkg(name: &str, path: &str, deps: &[&str]) -> Package {
    Package {
        name: name.into(),
        version: Version::new(1, 0, 0),
        path: path.into(),
        manifest_path: if path.is_empty() { "package.json".into() } else { format!("{}/package.json", path) },
        is_root: path.is_empty(),
        local_dependencies: deps.iter().map(|d| (d.to_string(), "^1.0.0".to_string())).collect(),
        dependencies: Vec::new(),
        dev_dependencies: Vec::new(),
        optional_dependencies: Vec::new(),
        warning: None,
        skipped: false,
    }
}

fn ctx(prerelease: Option<&str>) -> BranchContext {
    BranchContext {
        branch_name: prerelease.unwrap_or("main").into(),
        prerelease: prerelease.map(|s| s.to_string()),
        maintenance: false,
        maintenance_range: None,
        packages: Vec::new(),
    }
}

fn release(name: &str, cur: &str, next: &str) -> PackageRelease {
    PackageRelease {
        package_name: name.into(),
        current_version: v(cur),
        next_version: v(next),
        bump: BumpLevel::Minor,
        commits: vec![],
        is_root: false,
        propagated_from: None,
    }
}

fn commit(sha: &str, msg: &str, files: &[&str]) -> ConventionalCommit {
    let mut c = parse_conventional_commit(&sha[..8], msg).unwrap();
    c.oid = Some(sha.to_string());
    c.files_changed = files.iter().map(|f| f.to_string()).collect();
    c
}

const SHA_1: &str = "1111111111111111111111111111111111111111";
const SHA_2: &str = "2222222222222222222222222222222222222222";

#[test]
fn test_release_notes_heading_format() {
    let r = release("my-pkg", "1.0.0", "1.1.0");
    let notes = generate_release_notes(&r).unwrap();
    assert!(changelog_contains_version(&notes, "1.1.0"), "unexpected heading:\n{}", notes);
    assert!(!changelog_contains_version(&notes, "1.0.0"));
}

#[test]
fn changelog_cliff_commits_use_full_sha() {
    let sha = "1234567890abcdef1234567890abcdef12345678";
    let c = commit(sha, "feat: x", &[]);
    let (ids, msgs) = cliff_inputs(&vec![c]);
    assert_eq!(ids[0], sha);
    assert_eq!(msgs[0], "feat: x");
}

#[test]
fn release_notes_head_the_next_version() {
    let mut r = release("my-pkg", "1.0.0", "2.3.4");
    r.commits = vec![commit(SHA_1, "feat: shiny thing", &[])];
    let notes = generate_release_notes(&r).unwrap();
    assert!(notes.contains("## [2.3.4]"), "unexpected notes:\n{}", notes);
    assert!(!notes.contains("## [1.0.0]"));
    assert_eq!(notes_outcome(Some("x".into())), Ok("x".to_string()));
    assert_eq!(notes_outcome(None), Err(NotesError::Render));
}

#[test]
fn changelog_body_keeps_header_once() {
    assert_eq!(changelog_body("## [1.1.0]\n", ""), "# Changelog\n\n## [1.1.0]\n");
    assert_eq!(
        changelog_body("## [1.1.0]\n", "# Changelog\n\n\n## [1.0.0]\n"),
        "# Changelog\n\n## [1.1.0]\n## [1.0.0]\n"
    );
    assert_eq!(changelog_body("new\n", "old\n"), "# Changelog\n\nnew\nold\n");
}

#[test]
fn git_log_records_become_commits() {
    let raw = format!(
        "\u{1e}{SHA_2}\tfeat(core): add thing\n\nbody text\n\n\npackages/core/a.ts\npackages/core/b.ts\n\u{1e}{SHA_1}\tnot conventional\n\n\nREADME.md\n"
    );
    let commits = parse_git_log(&raw);
    assert_eq!(commits.len(), 1);
    let c = &commits[0];
    assert_eq!(c.hash, &SHA_2[..8]);
    assert_eq!(c.oid.as_deref(), Some(SHA_2));
    assert_eq!(c.commit_type, "feat");
    assert_eq!(c.body.as_deref(), Some("body text"));
    assert_eq!(c.files_changed, vec!["packages/core/a.ts".to_string(), "packages/core/b.ts".to_string()]);
}

#[test]
fn git_log_normalizes_object_ids() {
    let upper = "ABCDEF0123456789ABCDEF0123456789ABCDEF01";
    let raw = format!("\u{1e}{upper}\tfix: y\n");
    let commits = parse_git_log(&raw);
    assert_eq!(commits.len(), 1);
    assert_eq!(commits[0].oid.as_deref(), Some("abcdef0123456789abcdef0123456789abcdef01"));
    let bad = parse_git_log("\u{1e}xyz\tfix: y\n");
    assert_eq!(bad.len(), 1);
    assert!(bad[0].oid.is_none());
    let short = parse_git_log("\u{1e}Abc12\tfix: y\n");
    assert_eq!(short[0].oid.as_deref(), Some("abc1200000000000000000000000000000000000"));
}

#[test]
fn tags_scan_and_index() {
    let config = Config::default();
    let tags = vec![
        "v1.0.0".to_string(),
        "v1.2.0".to_string(),
        "v2.0.0-beta.1".to_string(),
        "core/v0.3.0".to_string(),
        "junk".to_string(),
    ];
    let packages = vec![("root".to_string(), true), ("core".to_string(), false)];
    let scan = TagScan::scan(&tags, &packages, &config, &ctx(None));
    assert_eq!(scan.candidates.len(), 3);
    let index = TagIndex::build(scan, &vec![true, true, true]);
    let latest = index.latest_version("root").unwrap();
    assert_eq!(latest.tag, "v1.2.0");
    assert_eq!(index.latest_version("core").unwrap().version, v("0.3.0"));
    assert!(index.version_exists("root", &v("1.0.0")));
    assert!(!index.version_exists("root", &v("1.1.0")));

    let scan = TagScan::scan(&tags, &packages, &config, &ctx(Some("beta")));
    let index = TagIndex::build(scan, &vec![true, true, true, true]);
    assert_eq!(index.latest_channel_version("root", "beta").unwrap().tag, "v2.0.0-beta.1");
    assert!(version_matches_branch(&v("2.0.0-beta.1"), &ctx(Some("beta"))));
    assert!(!version_matches_branch(&v("2.0.0-alpha.1"), &ctx(Some("beta"))));
    assert_eq!(extract_version_from_tag(&config, "core", false, "core/v1.2.3"), Some(v("1.2.3")));
    assert_eq!(extract_version_from_tag(&config, "core", false, "core/vX"), None);
}

#[test]
fn commit_boundary_is_oldest_tag_when_all_tagged() {
    let tags = vec![Some("a/v1".to_string()), Some("b/v1".to_string())];
    assert_eq!(commit_boundary(&tags, &vec![Some(20), Some(10)]).as_deref(), Some("b/v1"));
    let partial = vec![Some("a/v1".to_string()), None];
    assert_eq!(commit_boundary(&partial, &vec![Some(20), None]), None);
}

fn info(version: &str) -> PkgTagInfo {
    PkgTagInfo { current_version: v(version), cutoff_oid: None, cutoff_tag: None, cutoff_inclusive: false }
}

#[test]
fn plan_routes_commits_and_propagates() {
    let packages = vec![pkg("core", "packages/core", &[]), pkg("app", "packages/app", &["core"])];
    let infos = vec![info("1.0.0"), info("2.0.0")];
    let commits = vec![commit(SHA_1, "feat(core): new api", &["packages/core/src/a.ts"])];
    let rs = plan_releases(&packages, &infos, &commits, &Config::default(), &ctx(None), &TagIndex::from_stable_versions(Vec::new()))
        .unwrap();
    assert_eq!(rs.len(), 2);
    assert_eq!(rs[0].package_name, "core");
    assert_eq!(rs[0].next_version, v("1.1.0"));
    assert_eq!(rs[0].bump, BumpLevel::Minor);
    assert_eq!(rs[1].package_name, "app");
    assert_eq!(rs[1].next_version, v("2.0.1"));
    assert_eq!(rs[1].propagated_from.as_deref(), Some("core"));
}

#[test]
fn plan_on_prerelease_branch_stays_on_channel() {
    let packages = vec![pkg("core", "packages/core", &[])];
    let infos = vec![info("1.0.0")];
    let commits = vec![commit(SHA_1, "fix(core): bug", &["packages/core/src/a.ts"])];
    let rs = plan_releases(&packages, &infos, &commits, &Config::default(), &ctx(Some("beta")), &TagIndex::from_stable_versions(Vec::new()))
        .unwrap();
    assert_eq!(rs.len(), 1);
    assert_eq!(rs[0].next_version, v("1.0.1-beta.1"));
}

#[test]
fn plan_detects_collision_with_existing_stable_tag() {
    let packages = vec![pkg("core", "packages/core", &[])];
    let infos = vec![info("1.0.0")];
    let commits = vec![commit(SHA_1, "fix(core): bug", &["packages/core/src/a.ts"])];
    let index = TagIndex::from_stable_versions(vec![super_release::git::StableVersion {
        package: "core".into(),
        version: v("1.0.1"),
    }]);
    let res = plan_releases(&packages, &infos, &commits, &Config::default(), &ctx(None), &index);
    assert_eq!(res.unwrap_err(), PlanError::Collision("core".to_string(), "1.0.1".to_string()));
}

#[test]
fn plan_ignores_commits_of_other_packages_and_chores() {
    let packages = vec![pkg("core", "packages/core", &[]), pkg("ui", "packages/ui", &[])];
    let infos = vec![info("1.0.0"), info("1.0.0")];
    let commits = vec![
        commit(SHA_2, "chore(ui): tidy", &["packages/ui/x.ts"]),
        commit(SHA_1, "fix(core): bug", &["packages/core/src/a.ts"]),
    ];
    let rs = plan_releases(&packages, &infos, &commits, &Config::default(), &ctx(None), &TagIndex::from_stable_versions(Vec::new()))
        .unwrap();
    assert_eq!(rs.len(), 1);
    assert_eq!(rs[0].package_name, "core");
}

#[test]
fn run_filters_and_messages() {
    let mut releases = vec![release("@acme/core", "1.0.0", "1.1.0"), release("other", "1.0.0", "1.0.1")];
    let mut c = ctx(None);
    c.packages = vec!["@acme/*".to_string()];
    assert_eq!(apply_branch_package_filter(&mut releases, &c), 1);
    assert_eq!(releases.len(), 1);
    assert_eq!(
        commit_message("chore(release): {releases} [skip ci]", &releases),
        "chore(release): @acme/core@1.1.0 [skip ci]"
    );
    assert_eq!(commit_message("{count}\n{summary}", &releases), "1\n  - @acme/core 1.0.0 -> 1.1.0");
    assert_eq!(tag_message(&releases[0]), "Release @acme/core v1.1.0");
}

#[test]
fn step_filters() {
    let step = StepConfig { name: "changelog".into(), packages: vec!["@acme/*".into()], branches: vec!["main".into()] };
    assert!(step_runs_on_branch(&step, "main"));
    assert!(!step_runs_on_branch(&step, "beta"));
    assert!(step_covers_package(&step, "@acme/core"));
    assert!(!step_covers_package(&step, "other"));
    let cfg = Config { steps: vec![step], ..Config::default() };
    assert!(changelog_covers(&cfg, "main", "@acme/core"));
    assert!(!changelog_covers(&cfg, "beta", "@acme/core"));
    let packages = vec![pkg("@acme/core", "packages/core", &[]), pkg("other", "packages/other", &[])];
    let releases = vec![release("other", "1.0.0", "1.0.1")];
    let (ps, rs) = filter_for_step(&cfg.steps[0], &packages, &releases);
    assert_eq!(ps.len(), 1);
    assert_eq!(ps[0].name, "@acme/core");
    assert!(rs.is_empty());
}

#[test]
fn show_next_version_target() {
    let packages = vec![pkg("root", "", &[]), pkg("core", "packages/core", &[])];
    assert_eq!(show_target(&packages, None), Ok(0));
    assert_eq!(show_target(&packages, Some("core")), Ok(1));
    assert_eq!(show_target(&packages, Some("nope")), Err(TargetError::NotFound));
    let no_root = vec![pkg("a", "packages/a", &[]), pkg("b", "packages/b", &[])];
    assert_eq!(show_target(&no_root, None), Err(TargetError::Ambiguous));
    let releases = vec![release("core", "1.0.0", "1.1.0")];
    assert_eq!(shown_version(&packages[1], &releases), "1.1.0");
    assert_eq!(shown_version(&packages[0], &releases), "1.0.0");
}

#[test]
fn ignored_only_commits_release_nothing_and_global_ones_release_all() {
    let packages = vec![pkg("core", "packages/core", &[]), pkg("ui", "packages/ui", &[])];
    let infos = vec![info("1.0.0"), info("1.0.0")];
    let cfg = Config { ignore: vec!["**/*.md".into()], dependencies: vec!["yarn.lock".into()], ..Config::default() };
    let ignored = vec![commit(SHA_1, "fix(core): docs", &["packages/core/README.md"])];
    let rs = plan_releases(&packages, &infos, &ignored, &cfg, &ctx(None), &TagIndex::from_stable_versions(Vec::new())).unwrap();
    assert!(rs.is_empty());
    let global = vec![commit(SHA_2, "fix: bump lockfile", &["yarn.lock"])];
    let rs = plan_releases(&packages, &infos, &global, &cfg, &ctx(None), &TagIndex::from_stable_versions(Vec::new())).unwrap();
    assert_eq!(rs.len(), 2);
    assert!(rs.iter().all(|r| r.next_version == v("1.0.1")));
}

fn channel_ctx(channel: &str, packages: &[&str]) -> BranchContext {
    BranchContext {
        branch_name: channel.into(),
        prerelease: Some(channel.to_string()),
        maintenance: false,
        maintenance_range: None,
        packages: packages.iter().map(|p| p.to_string()).collect(),
    }
}

#[test]
fn version_exists_ignores_build_metadata() {
    let tags = vec!["app/v1.0.1+ci.7".to_string()];
    let packages = vec![("app".to_string(), false)];
    let scan = TagScan::scan(&tags, &packages, &Config::default(), &ctx(None));
    let reachable = vec![false; scan.candidates.len()];
    let index = TagIndex::build(scan, &reachable);
    assert!(index.version_exists("app", &Version::new(1, 0, 1)));
    assert!(!index.version_exists("app", &Version::new(1, 0, 2)));
}

#[test]
fn plan_skips_cascade_onto_build_metadata_tag() {
    let packages = vec![pkg("core", "packages/core", &[]), pkg("app", "packages/app", &["core"])];
    let infos = vec![info("1.0.0"), info("1.0.0")];
    let commits = vec![commit(SHA_1, "fix: patch in core", &["packages/core/src/index.ts"])];
    let tags = vec!["app/v1.0.1+ci.7".to_string()];
    let pairs = vec![("core".to_string(), false), ("app".to_string(), false)];
    let scan = TagScan::scan(&tags, &pairs, &Config::default(), &ctx(None));
    let reachable = vec![false; scan.candidates.len()];
    let index = TagIndex::build(scan, &reachable);
    let rs = plan_releases(&packages, &infos, &commits, &Config::default(), &ctx(None), &index).unwrap();
    assert_eq!(rs.len(), 1);
    assert_eq!(rs[0].package_name, "core");
}

#[test]
fn plan_fails_on_stale_channel_tag() {
    let packages = vec![pkg("core", "packages/core", &[]), pkg("app", "packages/app", &["core"])];
    let infos = vec![info("1.0.0"), info("1.0.0")];
    let commits = vec![commit(SHA_1, "fix: patch in core", &["packages/core/src/index.ts"])];
    let tags = vec!["app/v1.0.1-test-branch.1".to_string()];
    let pairs = vec![("core".to_string(), false), ("app".to_string(), false)];
    let branch = channel_ctx("test-branch", &[]);
    let scan = TagScan::scan(&tags, &pairs, &Config::default(), &branch);
    assert_eq!(scan.candidates.len(), 1);
    let index = TagIndex::build(scan, &vec![false]);
    let res = plan_releases(&packages, &infos, &commits, &Config::default(), &branch, &index);
    assert_eq!(res.unwrap_err(), PlanError::StaleChannelTag("app".to_string(), "1.0.1-test-branch.1".to_string()));
}

#[test]
fn plan_reachable_channel_tag_is_not_stale() {
    let packages = vec![pkg("core", "packages/core", &[])];
    let infos = vec![info("1.0.0")];
    let commits = vec![commit(SHA_1, "fix: patch in core", &["packages/core/src/index.ts"])];
    let tags = vec!["core/v1.0.1-test-branch.1".to_string()];
    let pairs = vec![("core".to_string(), false)];
    let branch = channel_ctx("test-branch", &[]);
    let scan = TagScan::scan(&tags, &pairs, &Config::default(), &branch);
    let index = TagIndex::build(scan, &vec![true]);
    let rs = plan_releases(&packages, &infos, &commits, &Config::default(), &branch, &index).unwrap();
    assert_eq!(rs.len(), 1);
    assert_eq!(rs[0].next_version, v("1.0.1-test-branch.1"));
}

#[test]
fn plan_stale_tag_outside_allowlist_does_not_block() {
    let packages = vec![pkg("core", "packages/core", &[]), pkg("app", "packages/app", &[])];
    let infos = vec![info("1.0.0"), info("1.0.0")];
    let commits = vec![commit(SHA_1, "fix: change both packages", &["packages/core/src/index.ts", "packages/app/src/index.ts"])];
    let tags = vec!["app/v1.0.1-test-branch.1".to_string()];
    let pairs = vec![("core".to_string(), false), ("app".to_string(), false)];
    let branch = channel_ctx("test-branch", &["core"]);
    let scan = TagScan::scan(&tags, &pairs, &Config::default(), &branch);
    let index = TagIndex::build(scan, &vec![false]);
    let mut kept = plan_releases(&packages, &infos, &commits, &Config::default(), &branch, &index).unwrap();
    assert_eq!(apply_branch_package_filter(&mut kept, &branch), 1);
    assert_eq!(kept.len(), 1);
    assert_eq!(kept[0].package_name, "core");
    assert_eq!(kept[0].next_version, v("1.0.1-test-branch.1"));
}

#[test]
fn changelog_rerun_adds_nothing() {
    let r = release("core", "1.0.0", "1.1.0");
    let existing = changelog_body("## [1.1.0] - 2024-01-01\n\n- feat\n", "");
    assert_eq!(pending_release_notes(&existing, &r).unwrap(), None);
    assert!(changelog_contains_version(&existing, "1.1.0"));
    assert!(!changelog_contains_version(&existing, "1.1.1"));
}

#[test]
fn changelog_without_section_gets_notes() {
    let r = release("core", "1.0.0", "1.1.0");
    match pending_release_notes("# Changelog\n\n## [1.0.0]\n", &r) {
        Ok(Some(_)) | Err(NotesError::Render) => {}
        Ok(None) => panic!("a changelog without the section must get notes"),
    }
}

#[test]
fn plan_ready_checks_the_plan_precondition() {
    let packages = vec![pkg("core", "packages/core", &[]), pkg("app", "packages/app", &["core"])];
    assert!(plan_ready(&packages, &vec![info("1.0.0"), info("2.0.0")], &ctx(None)));
    assert!(!plan_ready(&packages, &vec![info("1.0.0")], &ctx(None)));
    assert!(!plan_ready(&packages, &vec![info("1.0.0"), info("1.0.0-rc.4294967295")], &ctx(None)));
    let mut odd = info("1.0.0");
    odd.current_version.pre = "rc.01".to_string();
    assert!(!plan_ready(&packages, &vec![info("1.0.0"), odd], &ctx(None)));
}

#[test]
fn release_notes_name_the_next_version() {
    let r = release("core", "1.0.0", "1.1.0");
    if let Ok(notes) = generate_release_notes(&r) {
        assert!(notes.contains("1.1.0"));
    }
}
