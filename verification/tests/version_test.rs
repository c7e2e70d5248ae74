use super_release::commit::{parse_conventional_commit, BumpLevel, ConventionalCommit};
use super_release::config::branch::{BranchContext, MaintenanceRange};
use super_release::git::{StableVersion, TagIndex};
use super_release::package::Package;
use super_release::version::{
    apply_bump, calculate_maintenance_version, calculate_next_version,
    calculate_prerelease_version, calculate_stable_version, classify_bump,
    extract_prerelease_channel, extract_prerelease_number, highest_bump,
    propagate_to_dependents, version_in_maintenance_range, PackageRelease, Version,
};

fn make_commit(message: &str) -> ConventionalCommit {
    parse_conventional_commit("abcd1234", message).unwrap()
}

fn make_pkg(name: &str, local_deps: &[&str]) -> Package {
    Package {
        name: name.to_string(),
        version: Version::new(1, 0, 0),
        path: format!("packages/{}", name),
        manifest_path: format!("packages/{}/package.json", name),
        is_root: false,
        local_dependencies: local_deps.iter().map(|d| (d.to_string(), "^1.0.0".to_string())).collect(),
        dependencies: Vec::new(),
        dev_dependencies: Vec::new(),
        optional_dependencies: Vec::new(),
        warning: None,
        skipped: false,
    }
}

fn stable_ctx() -> BranchContext {
    BranchContext {
        branch_name: "main".into(),
        prerelease: None,
        maintenance: false,
        maintenance_range: None,
        packages: Vec::new(),
    }
}

fn prerelease_ctx(channel: &str) -> BranchContext {
    BranchContext {
        branch_name: channel.into(),
        prerelease: Some(channel.into()),
        ..stable_ctx()
    }
}

fn v(text: &str) -> Version {
    Version::parse(text).unwrap()
}

fn seed_release(name: &str) -> PackageRelease {
    PackageRelease {
        package_name: name.into(),
        current_version: Version::new(1, 0, 0),
        next_version: Version::new(1, 0, 1),
        bump: BumpLevel::Patch,
        commits: Vec::new(),
        is_root: false,
        propagated_from: None,
    }
}

fn empty_tag_index() -> TagIndex {
    TagIndex::from_stable_versions(Vec::new())
}

#[test]
fn test_apply_bump_patch() {
    assert_eq!(apply_bump(&Version::new(1, 2, 3), BumpLevel::Patch), Version::new(1, 2, 4));
}

#[test]
fn test_apply_bump_minor() {
    assert_eq!(apply_bump(&Version::new(1, 2, 3), BumpLevel::Minor), Version::new(1, 3, 0));
}

#[test]
fn test_apply_bump_major() {
    assert_eq!(apply_bump(&Version::new(1, 2, 3), BumpLevel::Major), Version::new(2, 0, 0));
}

#[test]
fn test_apply_bump_major_zero() {
    assert_eq!(apply_bump(&Version::new(0, 2, 3), BumpLevel::Major), Version::new(0, 3, 0));
}

#[test]
fn test_apply_bump_none() {
    assert_eq!(apply_bump(&Version::new(1, 2, 3), BumpLevel::NoBump), Version::new(1, 2, 3));
}

#[test]
fn test_extract_prerelease_channel() {
    assert_eq!(extract_prerelease_channel(&v("2.0.0-beta.3")), Some("beta".into()));
    assert_eq!(extract_prerelease_channel(&v("1.0.0-rc.1")), Some("rc".into()));
    assert_eq!(extract_prerelease_channel(&v("1.0.0-next.10")), Some("next".into()));
    assert_eq!(extract_prerelease_channel(&v("1.0.0")), None);
}

#[test]
fn test_extract_prerelease_number() {
    assert_eq!(extract_prerelease_number(&v("2.0.0-beta.3")), 3);
    assert_eq!(extract_prerelease_number(&v("1.0.0-rc.15")), 15);
    assert_eq!(extract_prerelease_number(&v("1.0.0")), 0);
}

#[test]
fn version_test_prerelease_increment() {
    let current = v("2.0.0-beta.3");
    let commits = vec![make_commit("fix: something")];
    let result = calculate_prerelease_version(&current, &commits, "beta").unwrap();
    assert_eq!(result, v("2.0.0-beta.4"));
}

#[test]
fn test_prerelease_increment_strips_build_metadata() {
    let current = v("2.0.0-beta.3+sha.abc");
    let commits = vec![make_commit("fix: something")];
    let result = calculate_prerelease_version(&current, &commits, "beta").unwrap();
    assert_eq!(result, v("2.0.0-beta.4"));
}

#[test]
fn test_prerelease_from_stable() {
    let commits = vec![make_commit("feat: new thing")];
    let result = calculate_prerelease_version(&v("1.0.0"), &commits, "beta").unwrap();
    assert_eq!(result, v("1.1.0-beta.1"));
}

#[test]
fn test_maintenance_major_minor_caps_breaking_to_patch() {
    let commits = vec![make_commit("feat!: breaking change")];
    let result =
        calculate_maintenance_version(&v("1.5.0"), &commits, Some(MaintenanceRange::MajorMinor(1, 5))).unwrap();
    assert_eq!(result, v("1.5.1"));
}

#[test]
fn test_maintenance_major_minor_caps_feat_to_patch() {
    let commits = vec![make_commit("feat: add feature")];
    let result =
        calculate_maintenance_version(&v("1.5.0"), &commits, Some(MaintenanceRange::MajorMinor(1, 5))).unwrap();
    assert_eq!(result, v("1.5.1"));
}

#[test]
fn test_maintenance_major_allows_minor() {
    let commits = vec![make_commit("feat: add feature")];
    let result = calculate_maintenance_version(&v("1.5.0"), &commits, Some(MaintenanceRange::Major(1))).unwrap();
    assert_eq!(result, v("1.6.0"));
}

#[test]
fn test_maintenance_major_caps_breaking() {
    let commits = vec![make_commit("feat!: breaking change")];
    let result = calculate_maintenance_version(&v("1.5.0"), &commits, Some(MaintenanceRange::Major(1))).unwrap();
    assert_eq!(result, v("1.6.0"));
}

#[test]
fn test_maintenance_allows_patch() {
    let commits = vec![make_commit("fix: bug fix")];
    let result =
        calculate_maintenance_version(&v("1.5.2"), &commits, Some(MaintenanceRange::MajorMinor(1, 5))).unwrap();
    assert_eq!(result, v("1.5.3"));
}

#[test]
fn test_version_in_maintenance_range() {
    let x = v("1.5.0");
    assert!(version_in_maintenance_range(&x, &MaintenanceRange::Major(1)));
    assert!(!version_in_maintenance_range(&x, &MaintenanceRange::Major(2)));
    assert!(version_in_maintenance_range(&x, &MaintenanceRange::MajorMinor(1, 5)));
    assert!(!version_in_maintenance_range(&x, &MaintenanceRange::MajorMinor(1, 4)));
}

fn next_on_stable(msg: &str) -> Version {
    calculate_next_version(&v("1.0.0"), &vec![make_commit(msg)], &stable_ctx()).unwrap()
}

#[test]
fn test_chore_no_bump() {
    assert_eq!(next_on_stable("chore: update deps"), v("1.0.0"), "chore should not bump");
}

#[test]
fn test_docs_no_bump() {
    assert_eq!(next_on_stable("docs: update readme"), v("1.0.0"), "docs should not bump");
}

#[test]
fn test_ci_no_bump() {
    assert_eq!(next_on_stable("ci: update workflow"), v("1.0.0"), "ci should not bump");
}

#[test]
fn test_refactor_no_bump() {
    assert_eq!(next_on_stable("refactor: simplify"), v("1.0.0"), "refactor should not bump");
}

#[test]
fn test_style_no_bump() {
    assert_eq!(next_on_stable("style: format"), v("1.0.0"), "style should not bump");
}

#[test]
fn test_test_no_bump() {
    assert_eq!(next_on_stable("test: add tests"), v("1.0.0"), "test should not bump");
}

#[test]
fn test_build_no_bump() {
    assert_eq!(next_on_stable("build: update config"), v("1.0.0"), "build should not bump");
}

#[test]
fn test_feat_bumps_minor() {
    let result = calculate_stable_version(&v("1.0.0"), &vec![make_commit("feat: add feature")]).unwrap();
    assert_eq!(result, v("1.1.0"));
}

#[test]
fn test_fix_bumps_patch() {
    let result = calculate_stable_version(&v("1.0.0"), &vec![make_commit("fix: bug fix")]).unwrap();
    assert_eq!(result, v("1.0.1"));
}

#[test]
fn test_perf_bumps_patch() {
    let result = calculate_stable_version(&v("1.0.0"), &vec![make_commit("perf: optimize")]).unwrap();
    assert_eq!(result, v("1.0.1"));
}

#[test]
fn test_breaking_bumps_major() {
    let result = calculate_stable_version(&v("1.0.0"), &vec![make_commit("feat!: redesign api")]).unwrap();
    assert_eq!(result, v("2.0.0"));
}

#[test]
fn test_breaking_footer_bumps_major() {
    let result =
        calculate_stable_version(&v("1.0.0"), &vec![make_commit("fix: change\n\nBREAKING CHANGE: new api")])
            .unwrap();
    assert_eq!(result, v("2.0.0"));
}

#[test]
fn test_highest_bump_wins() {
    let commits = vec![
        make_commit("fix: small fix"),
        make_commit("feat: new feature"),
        make_commit("chore: update deps"),
    ];
    let bump_commits: Vec<_> = commits.into_iter().filter(|c| c.bump > BumpLevel::NoBump).collect();
    let result = calculate_stable_version(&v("1.0.0"), &bump_commits).unwrap();
    assert_eq!(result, v("1.1.0"));
}

#[test]
fn test_breaking_wins_over_feat() {
    let commits = vec![make_commit("feat: add feature"), make_commit("fix!: breaking fix")];
    let result = calculate_stable_version(&v("1.0.0"), &commits).unwrap();
    assert_eq!(result, v("2.0.0"));
}

#[test]
fn test_prerelease_feat_from_stable() {
    let result = calculate_prerelease_version(&v("1.0.0"), &vec![make_commit("feat: thing")], "beta").unwrap();
    assert_eq!(result, v("1.1.0-beta.1"));
}

#[test]
fn test_prerelease_fix_from_stable() {
    let result = calculate_prerelease_version(&v("1.0.0"), &vec![make_commit("fix: thing")], "beta").unwrap();
    assert_eq!(result, v("1.0.1-beta.1"));
}

#[test]
fn test_prerelease_breaking_from_stable() {
    let result = calculate_prerelease_version(&v("1.0.0"), &vec![make_commit("feat!: break")], "beta").unwrap();
    assert_eq!(result, v("2.0.0-beta.1"));
}

#[test]
fn test_maintenance_fix_bumps_patch() {
    let result =
        calculate_maintenance_version(&v("1.5.0"), &vec![make_commit("fix: thing")], Some(MaintenanceRange::Major(1)))
            .unwrap();
    assert_eq!(result, v("1.5.1"));
}

#[test]
fn test_maintenance_major_range_feat_bumps_minor() {
    let result =
        calculate_maintenance_version(&v("1.5.0"), &vec![make_commit("feat: thing")], Some(MaintenanceRange::Major(1)))
            .unwrap();
    assert_eq!(result, v("1.6.0"));
}

#[test]
fn test_maintenance_major_range_breaking_capped_to_minor() {
    let result =
        calculate_maintenance_version(&v("1.5.0"), &vec![make_commit("feat!: break")], Some(MaintenanceRange::Major(1)))
            .unwrap();
    assert_eq!(result.major, 1, "Major should stay capped at 1");
    assert_eq!(result, v("1.6.0"));
}

const REVERT_SHA: &str = "aaaaaaaaaaaaaaaaaaaaaaaaaaaaaaaaaaaaaaaa";

#[test]
fn test_lone_git_style_revert_bumps_patch() {
    let msg = format!("Revert \"feat: add login\"\n\nThis reverts commit {REVERT_SHA}.");
    let result = calculate_next_version(&v("1.1.0"), &vec![make_commit(&msg)], &stable_ctx()).unwrap();
    assert_eq!(result, v("1.1.1"));
}

#[test]
fn test_lone_angular_revert_bumps_patch() {
    let msg = format!("revert: feat: add login\n\nThis reverts commit {REVERT_SHA}.");
    let result = calculate_next_version(&v("1.1.0"), &vec![make_commit(&msg)], &stable_ctx()).unwrap();
    assert_eq!(result, v("1.1.1"));
}

#[test]
fn test_bare_revert_no_release() {
    assert_eq!(next_on_stable("revert: undo thing"), v("1.0.0"), "bare revert should not bump");
}

#[test]
fn test_lone_revert_prerelease_bumps_patch() {
    let msg = format!("Revert \"feat: add login\"\n\nThis reverts commit {REVERT_SHA}.");
    let result = calculate_prerelease_version(&v("1.0.0"), &vec![make_commit(&msg)], "beta").unwrap();
    assert_eq!(result, v("1.0.1-beta.1"));
}

#[test]
fn test_propagate_prerelease_dependent_on_channel_increments() {
    let packages = vec![make_pkg("@test/assets", &[]), make_pkg("@test/components", &["@test/assets"])];
    let infos = vec![v("1.19.0-test-tasks-tsmain-2.1"), v("10.267.0-test-tasks-tsmain-2.1")];
    let mut releases = vec![seed_release("@test/assets")];
    let ctx = prerelease_ctx("test-tasks-tsmain-2");
    propagate_to_dependents(&mut releases, &packages, &infos, &empty_tag_index(), &ctx).unwrap();
    let dep = releases
        .iter()
        .find(|r| r.package_name == "@test/components")
        .expect("dependent should be released via propagation");
    assert_eq!(dep.next_version, v("10.267.0-test-tasks-tsmain-2.2"));
    assert_eq!(dep.bump, BumpLevel::Patch);
    assert_eq!(dep.propagated_from.as_deref(), Some("@test/assets"));
}

#[test]
fn test_propagate_prerelease_dependent_from_stable_base() {
    let packages = vec![make_pkg("@test/core", &[]), make_pkg("@test/app", &["@test/core"])];
    let infos = vec![v("1.0.0-beta.1"), v("10.267.0")];
    let mut releases = vec![seed_release("@test/core")];
    propagate_to_dependents(&mut releases, &packages, &infos, &empty_tag_index(), &prerelease_ctx("beta"))
        .unwrap();
    let dep = releases
        .iter()
        .find(|r| r.package_name == "@test/app")
        .expect("dependent should be released via propagation");
    assert_eq!(dep.next_version, v("10.267.1-beta.1"));
}

#[test]
fn test_propagate_prerelease_transitive_chain_never_stable() {
    let packages = vec![make_pkg("a", &[]), make_pkg("b", &["a"]), make_pkg("c", &["b"])];
    let infos = vec![v("1.0.0-beta.1"), v("1.1.0-beta.2"), v("2.0.0")];
    let mut releases = vec![seed_release("a")];
    propagate_to_dependents(&mut releases, &packages, &infos, &empty_tag_index(), &prerelease_ctx("beta"))
        .unwrap();
    let b = releases.iter().find(|r| r.package_name == "b").unwrap();
    assert_eq!(b.next_version, v("1.1.0-beta.3"));
    let c = releases.iter().find(|r| r.package_name == "c").unwrap();
    assert_eq!(c.next_version, v("2.0.1-beta.1"));
    assert_eq!(c.propagated_from.as_deref(), Some("a -> b"));
}

#[test]
fn test_propagate_stable_branch_unchanged() {
    let packages = vec![make_pkg("@test/core", &[]), make_pkg("@test/app", &["@test/core"])];
    let infos = vec![v("1.0.0"), v("1.2.3+build.5")];
    let mut releases = vec![seed_release("@test/core")];
    propagate_to_dependents(&mut releases, &packages, &infos, &empty_tag_index(), &stable_ctx()).unwrap();
    let dep = releases.iter().find(|r| r.package_name == "@test/app").unwrap();
    assert_eq!(dep.next_version, v("1.2.4"));
    assert_eq!(dep.bump, BumpLevel::Patch);
}

#[test]
fn test_propagate_collision_skips_dependent_and_its_cascade() {
    let packages = vec![
        make_pkg("@test/core", &[]),
        make_pkg("@test/app", &["@test/core"]),
        make_pkg("@test/ui", &["@test/app"]),
    ];
    let infos = vec![v("1.0.0"), v("1.0.0"), v("1.0.0")];
    let mut releases = vec![seed_release("@test/core")];
    let index = TagIndex::from_stable_versions(vec![StableVersion {
        package: "@test/app".into(),
        version: Version::new(1, 0, 1),
    }]);
    propagate_to_dependents(&mut releases, &packages, &infos, &index, &stable_ctx()).unwrap();
    assert_eq!(releases.len(), 1);
    assert!(releases.iter().all(|r| r.package_name == "@test/core"));
}

#[test]
fn test_propagate_prerelease_wins_over_maintenance() {
    let packages = vec![make_pkg("@test/core", &[]), make_pkg("@test/app", &["@test/core"])];
    let infos = vec![v("1.0.0"), v("1.5.0")];
    let mut releases = vec![seed_release("@test/core")];
    let mut ctx = prerelease_ctx("beta");
    ctx.maintenance = true;
    ctx.maintenance_range = Some(MaintenanceRange::Major(1));
    propagate_to_dependents(&mut releases, &packages, &infos, &empty_tag_index(), &ctx).unwrap();
    let dep = releases.iter().find(|r| r.package_name == "@test/app").unwrap();
    assert_eq!(dep.next_version, v("1.5.1-beta.1"));
}

#[test]
fn version_parse_and_display_round_trip() {
    let x = v("1.2.3-beta.4+build.7");
    assert_eq!(x.major, 1);
    assert_eq!(x.pre, "beta.4");
    assert_eq!(x.build, "build.7");
    assert_eq!(x.to_string(), "1.2.3-beta.4+build.7");
    assert!(x.is_prerelease());
    assert!(Version::parse("not a version").is_none());
    assert!(Version::parse("1.2").is_none());
}

#[test]
fn highest_bump_and_classify() {
    let commits = vec![make_commit("fix: a"), make_commit("feat: b"), make_commit("chore: c")];
    assert_eq!(highest_bump(&commits), BumpLevel::Minor);
    assert_eq!(highest_bump(&Vec::new()), BumpLevel::NoBump);
    assert_eq!(classify_bump(&v("1.2.3"), &v("2.0.0")), BumpLevel::Major);
    assert_eq!(classify_bump(&v("1.2.3"), &v("1.3.0")), BumpLevel::Minor);
    assert_eq!(classify_bump(&v("1.2.3"), &v("1.2.4")), BumpLevel::Patch);
}

#[test]
fn prerelease_on_channel_ignores_commit_kind() {
    let result = calculate_next_version(&v("2.0.0-beta.1"), &vec![make_commit("feat!: x")], &prerelease_ctx("beta"))
        .unwrap();
    assert_eq!(result, v("2.0.0-beta.2"));
}

#[test]
fn propagation_releases_each_dependent_once() {
    let packages = vec![
        make_pkg("a", &["d"]),
        make_pkg("b", &["a"]),
        make_pkg("c", &["a"]),
        make_pkg("d", &["b", "c"]),
    ];
    let infos = vec![v("1.0.0"), v("1.0.0"), v("1.0.0"), v("1.0.0")];
    let mut releases = vec![seed_release("a")];
    propagate_to_dependents(&mut releases, &packages, &infos, &empty_tag_index(), &stable_ctx()).unwrap();
    let mut names: Vec<&str> = releases.iter().map(|r| r.package_name.as_str()).collect();
    names.sort();
    assert_eq!(names, vec!["a", "b", "c", "d"]);
}

#[test]
fn stable_version_counts_a_prerelease_up_to_the_counter_limit() {
    let result = calculate_stable_version(&v("1.0.0-rc.4294967294"), &vec![make_commit("fix: bug")]).unwrap();
    assert_eq!(result, v("1.0.0-rc.4294967295"));
    let unchanged = calculate_stable_version(&v("1.0.0-rc.4294967295"), &vec![]).unwrap();
    assert_eq!(unchanged, v("1.0.0-rc.4294967295"));
}

#[test]
fn prerelease_identifiers_follow_semver_grammar() {
    assert!(Version::parse("1.0.0-beta.01").is_none());
    assert!(Version::parse("1.0.0-beta..1").is_none());
    assert!(Version::parse("1.0.0-beta.1+build.01").is_some());
    let ok = calculate_prerelease_version(&v("1.0.0"), &vec![make_commit("fix: a")], "rc-2").unwrap();
    assert_eq!(ok, v("1.0.1-rc-2.1"));
    let bad = calculate_prerelease_version(&v("1.0.0"), &vec![make_commit("fix: a")], "01");
    assert_eq!(bad, Err(super_release::version::VersionError::InvalidPrerelease));
}
