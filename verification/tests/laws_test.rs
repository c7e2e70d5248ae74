use super_release::commit::{parse_conventional_commit, referenced_issues, BumpLevel};
use super_release::config::Config;
use super_release::step::github::{build_success_comments, GithubOptions};
use super_release::step::subprocess::truncate;
use super_release::version::{apply_bump, cap_to_maintenance, classify_bump, PackageRelease, Version};
use super_release::config::branch::{BranchContext, MaintenanceRange};
use super_release::forge::parse_repo_url;
use super_release::run::{excluded_by_config, included_by_config, path_depth, push_needed, tags_to_create, tags_to_push};
use super_release::version::next_version_room;

#[test]
fn classifying_an_applied_bump_gives_it_back() {
    let v = Version::new(1, 2, 3);
    for b in [BumpLevel::NoBump, BumpLevel::Patch, BumpLevel::Minor, BumpLevel::Major] {
        assert_eq!(classify_bump(&v, &apply_bump(&v, b)), b);
    }
    let zero = Version::new(0, 4, 1);
    assert_eq!(classify_bump(&zero, &apply_bump(&zero, BumpLevel::Major)), BumpLevel::Minor);
}

#[test]
fn capped_versions_stay_in_the_maintenance_range() {
    let cur = Version::new(1, 5, 2);
    let capped = cap_to_maintenance(&cur, Version::new(2, 0, 0), Some(MaintenanceRange::MajorMinor(1, 5)));
    assert_eq!(capped, Version::new(1, 5, 3));
    let capped = cap_to_maintenance(&cur, Version::new(2, 0, 0), Some(MaintenanceRange::Major(1)));
    assert_eq!(capped, Version::new(1, 6, 0));
    let kept = cap_to_maintenance(&cur, Version::new(1, 5, 3), Some(MaintenanceRange::MajorMinor(1, 5)));
    assert_eq!(kept, Version::new(1, 5, 3));
}

#[test]
fn written_tags_are_read_back() {
    let cfg = Config { tag_format_package: "{name}@{version}".into(), ..Config::default() };
    for (name, root, v) in [("@acme/core", false, "2.0.0-beta.3"), ("app", true, "10.1.0+build.7")] {
        let version = Version::parse(v).unwrap();
        let tag = cfg.format_tag(name, &version, root);
        assert_eq!(cfg.tag_version(name, root, &tag).as_deref(), Some(v));
    }
}

#[test]
fn truncated_lines_fit_the_limit() {
    for n in [3usize, 5, 20] {
        assert!(truncate(&"x".repeat(50), n).chars().count() <= n);
    }
}

#[test]
fn referenced_issues_are_listed_once() {
    let ids = referenced_issues("fix: a (#5)\n\nfixes #5, closes #6, resolves #5");
    assert_eq!(ids, vec!["5", "6"]);
}

#[test]
fn success_comments_come_once_per_id_in_order() {
    let commit = |m: &str| parse_conventional_commit("abcd1234", m).unwrap();
    let release = |name: &str, msgs: &[&str]| PackageRelease {
        package_name: name.into(),
        current_version: Version::new(1, 0, 0),
        next_version: Version::new(1, 1, 0),
        bump: BumpLevel::Minor,
        commits: msgs.iter().map(|m| commit(m)).collect(),
        is_root: false,
        propagated_from: None,
    };
    let releases = vec![
        release("b", &["feat: x (#9)", "fix: y\n\ncloses #10"]),
        release("a", &["feat: z (#10)", "fix: w (#9)"]),
    ];
    let comments = build_success_comments(&Config::default(), &GithubOptions::default(), &releases);
    let ids: Vec<&str> = comments.iter().map(|c| c.id.as_str()).collect();
    assert_eq!(ids, vec!["10", "9"]);
    assert!(comments[0].body.contains("`b/v1.1.0`") && comments[0].body.contains("`a/v1.1.0`"));
    assert_eq!(comments[0].labels, vec!["released".to_string()]);
}

#[test]
fn tags_already_there_are_not_created_again() {
    let tags = vec!["a/v1.0.0".to_string(), "b/v2.0.0".to_string(), "c/v3.0.0".to_string()];
    assert_eq!(tags_to_create(&tags, &vec![false, true, false]), vec!["a/v1.0.0".to_string(), "c/v3.0.0".to_string()]);
    assert!(tags_to_create(&tags, &vec![true, true, true]).is_empty());
}

#[test]
fn tags_on_the_remote_are_not_pushed_again() {
    let created = vec!["a/v1.0.0".to_string(), "b/v2.0.0".to_string()];
    let remote = vec![Some("abc".to_string()), None];
    assert_eq!(tags_to_push(&created, &remote), vec!["b/v2.0.0".to_string()]);
    assert!(!push_needed(false, &Vec::new()));
    assert!(push_needed(true, &Vec::new()));
    assert!(push_needed(false, &vec!["b/v2.0.0".to_string()]));
}

#[test]
fn repo_url_suffixes_are_optional() {
    for base in ["https://github.com/owner/repo", "git@github.com:owner/repo", "ssh://git@host:22/owner/repo"] {
        let plain = parse_repo_url(base);
        assert!(plain.is_some());
        assert_eq!(parse_repo_url(&format!("{base}.git")), plain);
        assert_eq!(parse_repo_url(&format!("{base}/")), plain);
        assert_eq!(parse_repo_url(&format!("{base}.git/")), plain);
    }
}

#[test]
fn next_version_room_at_the_limits() {
    let stable = BranchContext {
        branch_name: "main".into(),
        prerelease: None,
        maintenance: false,
        maintenance_range: None,
        packages: Vec::new(),
    };
    assert!(next_version_room(&Version::new(1, 2, 3), &stable));
    assert!(!next_version_room(&Version::new(1, 2, u64::MAX), &stable));
    assert!(!next_version_room(&Version::new(u64::MAX, 0, 0), &stable));
    let beta = BranchContext { branch_name: "beta".into(), prerelease: Some("beta".into()), ..stable };
    let at_max = Version::parse(&format!("1.0.0-beta.{}", u64::MAX)).unwrap();
    assert!(!next_version_room(&at_max, &beta));
    assert!(next_version_room(&Version::parse("1.0.0-beta.4").unwrap(), &beta));
    assert!(next_version_room(&at_max, &BranchContext { prerelease: Some("alpha".into()), ..beta }));
    let counter_limit = Version::parse("1.0.0-rc.4294967295").unwrap();
    let main = BranchContext {
        branch_name: "main".into(),
        prerelease: None,
        maintenance: false,
        maintenance_range: None,
        packages: Vec::new(),
    };
    assert!(!next_version_room(&counter_limit, &main));
    assert!(next_version_room(&Version::parse("1.0.0-rc.4294967294").unwrap(), &main));
    let rc = BranchContext { branch_name: "rc".into(), prerelease: Some("rc".into()), ..main };
    assert!(next_version_room(&counter_limit, &rc));
}

#[test]
fn config_package_filters_and_depth() {
    let wanted = Some(vec!["@acme/*".to_string()]);
    assert!(included_by_config(&wanted, "@acme/core"));
    assert!(!included_by_config(&wanted, "other"));
    assert!(included_by_config(&None, "other"));
    assert!(!included_by_config(&Some(Vec::new()), "other"));
    let drop = vec!["*-internal".to_string()];
    assert!(excluded_by_config(&drop, "core-internal"));
    assert!(!excluded_by_config(&drop, "core"));
    assert!(!excluded_by_config(&Vec::new(), "core"));
    assert_eq!(path_depth(""), 0);
    assert_eq!(path_depth("packages/core"), 2);
    assert_eq!(path_depth("/packages//core/"), 2);
}

#[test]
fn version_well_formedness_check() {
    assert!(Version::new(1, 2, 3).is_wf());
    assert!(Version::parse("1.0.0-rc.1+build.007").unwrap().is_wf());
    let mut bad = Version::new(1, 0, 0);
    bad.pre = "rc.01".to_string();
    assert!(!bad.is_wf());
    bad.pre = "rc..1".to_string();
    assert!(!bad.is_wf());
    bad.pre = String::new();
    bad.build = "b_1".to_string();
    assert!(!bad.is_wf());
}
