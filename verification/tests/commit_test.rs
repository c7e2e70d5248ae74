use super_release::commit::{
    filter_reverted_commits, parse_conventional_commit, parse_revert, referenced_issues, BumpLevel,
    ConventionalCommit, RevertInfo,
};

const SHA_A: &str = "aaaaaaaaaaaaaaaaaaaaaaaaaaaaaaaaaaaaaaaa";
const SHA_B: &str = "bbbbbbbbbbbbbbbbbbbbbbbbbbbbbbbbbbbbbbbb";
const SHA_C: &str = "cccccccccccccccccccccccccccccccccccccccc";

#[test]
fn test_parse_feat() {
    let c = parse_conventional_commit("abc123", "feat: add new feature").unwrap();
    assert_eq!(c.commit_type, "feat");
    assert_eq!(c.description, "add new feature");
    assert_eq!(c.bump, BumpLevel::Minor);
    assert!(!c.breaking);
    assert!(c.scope.is_none());
}

#[test]
fn test_parse_fix_with_scope() {
    let c = parse_conventional_commit("abc123", "fix(parser): handle edge case").unwrap();
    assert_eq!(c.commit_type, "fix");
    assert_eq!(c.scope.as_deref(), Some("parser"));
    assert_eq!(c.bump, BumpLevel::Patch);
}

#[test]
fn test_parse_breaking_bang() {
    let c = parse_conventional_commit("abc123", "feat!: remove old API").unwrap();
    assert!(c.breaking);
    assert_eq!(c.bump, BumpLevel::Major);
}

#[test]
fn test_parse_breaking_footer() {
    let msg = "feat: new thing\n\nBREAKING CHANGE: old thing removed";
    let c = parse_conventional_commit("abc123", msg).unwrap();
    assert!(c.breaking);
    assert_eq!(c.bump, BumpLevel::Major);
    assert!(c.body.is_some());
}

#[test]
fn test_parse_chore() {
    let c = parse_conventional_commit("abc123", "chore: update deps").unwrap();
    assert_eq!(c.commit_type, "chore");
    assert_eq!(c.bump, BumpLevel::NoBump);
}

#[test]
fn test_non_conventional_returns_none() {
    assert!(parse_conventional_commit("abc123", "just a random message").is_none());
    assert!(parse_conventional_commit("abc123", "").is_none());
}

#[test]
fn test_parse_perf() {
    let c = parse_conventional_commit("abc123", "perf(core): optimize loop").unwrap();
    assert_eq!(c.bump, BumpLevel::Patch);
}

#[test]
fn test_no_bump_commit_types() {
    for msg in &[
        "chore: update deps",
        "docs: update readme",
        "style: format code",
        "test: add unit tests",
        "ci: update workflow",
        "build: update config",
        "refactor: simplify logic",
        "revert: undo thing",
    ] {
        let c = parse_conventional_commit("abc123", msg).unwrap();
        assert_eq!(c.bump, BumpLevel::NoBump, "Expected no bump for: {}", msg);
    }
}

#[test]
fn test_bump_commit_types() {
    let cases = [
        ("feat: add feature", BumpLevel::Minor),
        ("fix: fix bug", BumpLevel::Patch),
        ("perf: optimize", BumpLevel::Patch),
        ("feat!: breaking", BumpLevel::Major),
        ("fix!: breaking fix", BumpLevel::Major),
        ("chore!: breaking chore", BumpLevel::Major),
    ];
    for (msg, expected) in &cases {
        let c = parse_conventional_commit("abc123", msg).unwrap();
        assert_eq!(c.bump, *expected, "Wrong bump for: {}", msg);
    }
}

#[test]
fn test_breaking_change_footer_on_any_type() {
    for msg in &[
        "chore: thing\n\nBREAKING CHANGE: breaks stuff",
        "docs: update\n\nBREAKING-CHANGE: api changed",
        "refactor: rewrite\n\nBREAKING CHANGE: new interface",
    ] {
        let c = parse_conventional_commit("abc123", msg).unwrap();
        assert!(c.breaking, "Should be breaking: {}", msg);
        assert_eq!(c.bump, BumpLevel::Major, "Should be major: {}", msg);
    }
}

#[test]
fn test_body_extraction() {
    let msg = "feat: something\n\nThis is the body\nwith multiple lines";
    let c = parse_conventional_commit("abc123", msg).unwrap();
    assert_eq!(c.body.as_deref(), Some("This is the body\nwith multiple lines"));
}

#[test]
fn test_referenced_issues_squash_suffix() {
    assert_eq!(referenced_issues("feat: add thing (#123)"), vec!["123"]);
}

#[test]
fn test_referenced_issues_merge_commit() {
    assert_eq!(referenced_issues("Merge pull request #45 from foo/bar"), vec!["45"]);
}

#[test]
fn test_referenced_issues_closing_keywords() {
    let msg = "fix: bug (#10)\n\nCloses #20, fixes #21\nresolved #22";
    assert_eq!(referenced_issues(msg), vec!["10", "20", "21", "22"]);
}

#[test]
fn test_referenced_issues_ignores_plain_mentions() {
    assert_eq!(referenced_issues("fix: handle #99 edge case"), Vec::<String>::new());
}

#[test]
fn test_referenced_issues_dedupes() {
    assert_eq!(referenced_issues("feat: x (#7)\n\nfixes #7"), vec!["7"]);
}

#[test]
fn test_parse_git_style_revert() {
    let msg = format!("Revert \"feat: add login\"\n\nThis reverts commit {SHA_A}.");
    let c = parse_conventional_commit("abc123", &msg).unwrap();
    assert_eq!(c.commit_type, "revert");
    assert_eq!(c.description, "feat: add login");
    assert_eq!(c.bump, BumpLevel::Patch);
    assert!(!c.breaking);
    assert_eq!(
        c.revert,
        Some(RevertInfo { header: "feat: add login".into(), hash: SHA_A.into() })
    );
}

#[test]
fn test_parse_angular_style_revert() {
    let msg = format!("revert: feat: add login\n\nThis reverts commit {SHA_A}.");
    let c = parse_conventional_commit("abc123", &msg).unwrap();
    assert_eq!(c.commit_type, "revert");
    assert_eq!(c.bump, BumpLevel::Patch);
    assert_eq!(
        c.revert,
        Some(RevertInfo { header: "feat: add login".into(), hash: SHA_A.into() })
    );
}

#[test]
fn test_bare_revert_without_footer() {
    let c = parse_conventional_commit("abc123", "revert: undo thing").unwrap();
    assert!(c.revert.is_none());
    assert_eq!(c.bump, BumpLevel::NoBump);
}

#[test]
fn test_revert_regex_case_insensitive() {
    let msg = format!("REVERT \"feat: x\"\n\nthis reverts commit {SHA_A}.");
    let c = parse_conventional_commit("abc123", &msg).unwrap();
    assert!(c.revert.is_some());
    assert_eq!(c.bump, BumpLevel::Patch);
}

#[test]
fn test_revert_of_revert_header_keeps_inner_quotes() {
    let msg = format!("Revert \"Revert \"feat: x\"\"\n\nThis reverts commit {SHA_B}.");
    let c = parse_conventional_commit("abc123", &msg).unwrap();
    assert_eq!(c.revert.unwrap().header, "Revert \"feat: x\"");
}

#[test]
fn test_revert_short_hash_captured() {
    let msg = "Revert \"fix: y\"\n\nThis reverts commit abcdef0.";
    let c = parse_conventional_commit("abc123", msg).unwrap();
    assert_eq!(c.revert.unwrap().hash, "abcdef0");
}

#[test]
fn test_revert_subject_without_footer_still_none() {
    assert!(parse_conventional_commit("abc123", "Revert \"feat: x\"").is_none());
}

#[test]
fn test_normalized_message_rewrites_only_git_style_reverts() {
    let git_style = format!("Revert \"feat: add login\"\n\nThis reverts commit {SHA_A}.");
    let c = parse_conventional_commit("abc123", &git_style).unwrap();
    assert_eq!(
        c.normalized_message(),
        format!("revert: feat: add login\n\nThis reverts commit {SHA_A}.")
    );

    let angular = format!("revert: feat: add login\n\nThis reverts commit {SHA_A}.");
    let c = parse_conventional_commit("abc123", &angular).unwrap();
    assert_eq!(c.normalized_message(), angular);

    let plain = parse_conventional_commit("abc123", "feat: x").unwrap();
    assert_eq!(plain.normalized_message(), "feat: x");
}

fn oc(sha40: &str, msg: &str) -> ConventionalCommit {
    let mut c = parse_conventional_commit(&sha40[..8], msg).unwrap();
    c.oid = Some(sha40.to_string());
    c
}

fn revert_of(target_header: &str, target_sha: &str) -> String {
    format!("Revert \"{target_header}\"\n\nThis reverts commit {target_sha}.")
}

#[test]
fn test_filter_cancels_revert_pair() {
    let commits = vec![
        oc(SHA_B, &revert_of("feat: add login", SHA_A)),
        oc(SHA_A, "feat: add login"),
    ];
    assert!(filter_reverted_commits(commits).is_empty());
}

#[test]
fn test_filter_angular_revert_cancels_pair() {
    let msg = format!("revert: feat: add login\n\nThis reverts commit {SHA_A}.");
    let commits = vec![oc(SHA_B, &msg), oc(SHA_A, "feat: add login")];
    assert!(filter_reverted_commits(commits).is_empty());
}

#[test]
fn test_filter_revert_of_revert_keeps_original() {
    let revert = revert_of("feat: add login", SHA_A);
    let revert_of_revert = revert_of(revert.lines().next().unwrap(), SHA_B);
    let commits = vec![
        oc(SHA_C, &revert_of_revert),
        oc(SHA_B, &revert),
        oc(SHA_A, "feat: add login"),
    ];
    let kept = filter_reverted_commits(commits);
    assert_eq!(kept.len(), 1);
    assert_eq!(kept[0].raw_message, "feat: add login");
}

#[test]
fn test_filter_keeps_unmatched_revert() {
    let commits = vec![oc(SHA_B, &revert_of("feat: add login", SHA_A))];
    let kept = filter_reverted_commits(commits);
    assert_eq!(kept.len(), 1);
    assert!(kept[0].revert.is_some());
}

#[test]
fn test_filter_hash_mismatch_no_cancellation() {
    let commits = vec![
        oc(SHA_B, &revert_of("feat: add login", SHA_C)),
        oc(SHA_A, "feat: add login"),
    ];
    assert_eq!(filter_reverted_commits(commits).len(), 2);
}

#[test]
fn test_filter_header_mismatch_no_cancellation() {
    let commits = vec![
        oc(SHA_B, &revert_of("feat: add logout", SHA_A)),
        oc(SHA_A, "feat: add login"),
    ];
    assert_eq!(filter_reverted_commits(commits).len(), 2);
}

#[test]
fn test_filter_passes_non_reverts_through() {
    let commits = vec![oc(SHA_A, "feat: a"), oc(SHA_B, "fix: b"), oc(SHA_C, "chore: c")];
    let kept = filter_reverted_commits(commits);
    assert_eq!(kept.len(), 3);
    assert_eq!(kept[0].raw_message, "feat: a");
    assert_eq!(kept[2].raw_message, "chore: c");
}

#[test]
fn test_filter_revert_older_than_target_no_cancellation() {
    let commits = vec![
        oc(SHA_A, "feat: add login"),
        oc(SHA_B, &revert_of("feat: add login", SHA_A)),
    ];
    assert_eq!(filter_reverted_commits(commits).len(), 2);
}

#[test]
fn parse_revert_reads_git_style_footer() {
    let msg = format!("Revert \"fix: y\"\n\nThis reverts commit {SHA_C}.");
    let info = parse_revert(&msg).unwrap();
    assert_eq!(info.header, "fix: y");
    assert_eq!(info.hash, SHA_C);
    assert!(parse_revert("fix: y").is_none());
}

#[test]
fn bump_level_rank_and_names() {
    assert!(BumpLevel::NoBump.rank() < BumpLevel::Patch.rank());
    assert!(BumpLevel::Patch.rank() < BumpLevel::Minor.rank());
    assert!(BumpLevel::Minor.rank() < BumpLevel::Major.rank());
    assert_eq!(BumpLevel::Major.as_str(), "major");
    assert_eq!(BumpLevel::NoBump.as_str(), "none");
}

#[test]
fn scope_lowercase_type_and_files_default_empty() {
    let c = parse_conventional_commit("h1", "Feat(API): shout").unwrap();
    assert_eq!(c.commit_type, "feat");
    assert_eq!(c.bump, BumpLevel::Minor);
    assert_eq!(c.hash, "h1");
    assert!(c.files_changed.is_empty());
    assert!(c.oid.is_none());
}

#[test]
fn filter_removes_pairs_and_keeps_order() {
    let commits = vec![
        oc(SHA_C, "fix: newest"),
        oc(SHA_B, &revert_of("feat: add login", SHA_A)),
        oc("dddddddddddddddddddddddddddddddddddddddd", "feat: middle"),
        oc(SHA_A, "feat: add login"),
        oc("eeeeeeeeeeeeeeeeeeeeeeeeeeeeeeeeeeeeeeee", "fix: oldest"),
    ];
    let kept = filter_reverted_commits(commits);
    let messages: Vec<&str> = kept.iter().map(|c| c.raw_message.as_str()).collect();
    assert_eq!(messages, vec!["fix: newest", "feat: middle", "fix: oldest"]);
}
