use super_release::forge::{
    api_base_uri_for, is_github_dot_com, numeric_id, parse_repo_url, pr_context_from_fields,
    pr_context_from_ref, release_url, PrContext, RepoRef, UpsertAction,
};
use super_release::github;
use super_release::github::GitHubRepo;

fn repo(owner: &str, name: &str, host: &str) -> RepoRef {
    RepoRef { owner: owner.into(), repo: name.into(), host: host.into() }
}

fn gh_repo(owner: &str, name: &str, host: &str) -> GitHubRepo {
    GitHubRepo { owner: owner.into(), repo: name.into(), host: host.into() }
}

#[test]
fn release_url_encodes_tag_path_segment() {
    let r = repo("o", "r", "github.com");
    assert_eq!(
        release_url(&r, "super-release/v1.10.0"),
        "https://github.com/o/r/releases/tag/super-release%2Fv1.10.0"
    );
    assert_eq!(release_url(&r, "v1.10.0"), "https://github.com/o/r/releases/tag/v1.10.0");
}

#[test]
fn web_url_is_host_owner_repo() {
    assert_eq!(
        repo("BowlingX", "super-release", "github.com").web_url(),
        "https://github.com/BowlingX/super-release"
    );
    assert_eq!(
        repo("acme", "widgets", "github.example.com").web_url(),
        "https://github.example.com/acme/widgets"
    );
}

#[test]
fn mod_parses_https_url() {
    assert_eq!(
        parse_repo_url("https://github.com/BowlingX/super-release.git"),
        Some(repo("BowlingX", "super-release", "github.com"))
    );
    assert_eq!(
        parse_repo_url("https://github.com/BowlingX/super-release"),
        Some(repo("BowlingX", "super-release", "github.com"))
    );
    assert_eq!(
        parse_repo_url("https://github.com/BowlingX/super-release/"),
        Some(repo("BowlingX", "super-release", "github.com"))
    );
}

#[test]
fn mod_parses_scp_ssh_url() {
    assert_eq!(
        parse_repo_url("git@github.com:BowlingX/super-release.git"),
        Some(repo("BowlingX", "super-release", "github.com"))
    );
    assert_eq!(
        parse_repo_url("ssh://git@github.com/BowlingX/super-release.git"),
        Some(repo("BowlingX", "super-release", "github.com"))
    );
    assert_eq!(
        parse_repo_url("ssh://git@github.com:22/BowlingX/super-release.git"),
        Some(repo("BowlingX", "super-release", "github.com"))
    );
}

#[test]
fn parses_enterprise_and_other_hosts() {
    assert_eq!(
        parse_repo_url("git@github.example.com:acme/widgets.git"),
        Some(repo("acme", "widgets", "github.example.com"))
    );
    assert_eq!(
        parse_repo_url("git@bitbucket.org:team/thing.git"),
        Some(repo("team", "thing", "bitbucket.org"))
    );
}

#[test]
fn mod_rejects_non_repo_urls() {
    assert_eq!(parse_repo_url("not a url"), None);
    assert_eq!(parse_repo_url("https://github.com/only-owner"), None);
}

#[test]
fn github_parses_https_url() {
    assert_eq!(
        github::parse_repo_url("https://github.com/BowlingX/super-release.git"),
        Some(gh_repo("BowlingX", "super-release", "github.com"))
    );
    assert_eq!(
        github::parse_repo_url("https://github.com/BowlingX/super-release"),
        Some(gh_repo("BowlingX", "super-release", "github.com"))
    );
    assert_eq!(
        github::parse_repo_url("https://github.com/BowlingX/super-release/"),
        Some(gh_repo("BowlingX", "super-release", "github.com"))
    );
}

#[test]
fn github_parses_scp_ssh_url() {
    assert_eq!(
        github::parse_repo_url("git@github.com:BowlingX/super-release.git"),
        Some(gh_repo("BowlingX", "super-release", "github.com"))
    );
    assert_eq!(
        github::parse_repo_url("ssh://git@github.com/BowlingX/super-release.git"),
        Some(gh_repo("BowlingX", "super-release", "github.com"))
    );
    assert_eq!(
        github::parse_repo_url("ssh://git@github.com:22/BowlingX/super-release.git"),
        Some(gh_repo("BowlingX", "super-release", "github.com"))
    );
}

#[test]
fn parses_enterprise_host() {
    assert_eq!(
        github::parse_repo_url("git@github.example.com:acme/widgets.git"),
        Some(gh_repo("acme", "widgets", "github.example.com"))
    );
    assert_eq!(
        github::parse_repo_url("https://github.example.com/acme/widgets"),
        Some(gh_repo("acme", "widgets", "github.example.com"))
    );
}

#[test]
fn github_rejects_non_repo_urls() {
    assert_eq!(github::parse_repo_url("not a url"), None);
    assert_eq!(github::parse_repo_url("https://github.com/only-owner"), None);
}

#[test]
fn github_enterprise_api_base_uri() {
    assert_eq!(gh_repo("a", "b", "github.com").api_base_uri_with(None), None);
    assert_eq!(
        gh_repo("a", "b", "ghe.corp").api_base_uri_with(None),
        Some("https://ghe.corp/api/v3".to_string())
    );
    assert_eq!(api_base_uri_for(None, &repo("a", "b", "github.com")), None);
    assert_eq!(
        api_base_uri_for(None, &repo("a", "b", "ghe.corp")),
        Some("https://ghe.corp/api/v3".to_string())
    );
}

#[test]
fn api_base_uri_prefers_environment() {
    assert_eq!(
        api_base_uri_for(Some("https://api.example/"), &repo("a", "b", "github.com")),
        Some("https://api.example".to_string())
    );
    assert!(is_github_dot_com("github.com"));
    assert!(is_github_dot_com("GitHub.com"));
    assert!(!is_github_dot_com("ghe.corp"));
}

#[test]
fn detect_pr_context_from_pull_request_event() {
    assert_eq!(
        pr_context_from_fields(Some(42), Some("main".into()), None),
        Some(PrContext { id: "42".into(), base_ref: Some("main".into()) })
    );
}

#[test]
fn detect_pr_context_from_top_level_number() {
    assert_eq!(
        pr_context_from_fields(None, None, Some(7)),
        Some(PrContext { id: "7".into(), base_ref: None })
    );
}

#[test]
fn detect_pr_context_absent() {
    assert_eq!(pr_context_from_fields(None, None, None), None);
}

#[test]
fn github_pr_context_from_pull_request_event() {
    assert_eq!(
        github::pr_context_from_fields(Some(42), Some("main".into()), None),
        Some(github::PrContext { number: 42, base_ref: Some("main".into()) })
    );
}

#[test]
fn github_pr_context_from_top_level_number() {
    assert_eq!(
        github::pr_context_from_fields(None, None, Some(7)),
        Some(github::PrContext { number: 7, base_ref: None })
    );
}

#[test]
fn github_pr_context_absent() {
    assert_eq!(github::pr_context_from_fields(None, None, None), None);
}

#[test]
fn pr_context_from_merge_ref_and_ids() {
    assert_eq!(
        pr_context_from_ref("refs/pull/12/merge", Some("main".into())),
        Some(PrContext { id: "12".into(), base_ref: Some("main".into()) })
    );
    assert_eq!(pr_context_from_ref("refs/heads/main", None), None);
    assert_eq!(numeric_id("123"), Some(123));
    assert_eq!(numeric_id("12a"), None);
    assert_eq!(UpsertAction::Created.verb(), "Created");
}
