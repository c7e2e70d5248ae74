//! GitHub repository references and pull-request context, by number.
use vstd::prelude::*;

use crate::forge::{
    api_base_spec, api_base_uri_for, github_dot_com, is_github_dot_com, parse_repo_parts,
    repo_url_spec, RepoRef,
};
use crate::matcher::opt_view;

verus! {

/// A GitHub repository slug plus its host (for GitHub Enterprise).
#[derive(Debug, PartialEq, Eq)]
pub struct GitHubRepo {
    pub owner: String,
    pub repo: String,
    pub host: String,
}

impl GitHubRepo {
    /// The host is github.com (or empty).
    pub fn is_github_dot_com(&self) -> (res: bool)
        ensures
            res == github_dot_com(self.host@),
    {
        is_github_dot_com(self.host.as_str())
    }

    /// The API endpoint, given the value of `GITHUB_API_URL`: `None` for the
    /// public API, `Some(..)` for a GitHub Enterprise endpoint.
    pub fn api_base_uri_with(&self, env_url: Option<&str>) -> (res: Option<String>)
        ensures
            opt_view(res) == api_base_spec(
                match env_url {
                    Some(u) => Some(u@),
                    None => None,
                },
                self.host@,
            ),
    {
        let r = RepoRef { owner: self.owner.clone(), repo: self.repo.clone(), host: self.host.clone() };
        api_base_uri_for(env_url, &r)
    }
}

/// Parses an owner/repo (and host) out of a git remote URL.
pub fn parse_repo_url(url: &str) -> (res: Option<GitHubRepo>)
    ensures
        match res {
            Some(r) => repo_url_spec(url@) == Some((r.owner@, r.repo@, r.host@)),
            None => repo_url_spec(url@) is None,
        },
{
    match parse_repo_parts(url) {
        Some((owner, repo, host)) => Some(GitHubRepo { owner, repo, host }),
        None => None,
    }
}

/// A pull-request context discovered from the CI environment.
#[derive(Debug, PartialEq, Eq)]
pub struct PrContext {
    pub number: u64,
    pub base_ref: Option<String>,
}

/// The pull request of an event: the `pull_request` number (with its base
/// ref) when present, else a top-level `number`.
pub fn pr_context_from_fields(pr_number: Option<u64>, pr_base_ref: Option<String>, top_number: Option<u64>) -> (res: Option<PrContext>)
    ensures
        match pr_number {
            Some(n) => res matches Some(c) && c.number == n && opt_view(c.base_ref) == opt_view(pr_base_ref),
            None => match top_number {
                Some(n) => res matches Some(c) && c.number == n && c.base_ref is None,
                None => res is None,
            },
        },
{
    match pr_number {
        Some(n) => Some(PrContext { number: n, base_ref: pr_base_ref }),
        None => match top_number {
            Some(n) => Some(PrContext { number: n, base_ref: None }),
            None => None,
        },
    }
}

/// Whether an upsert created a new resource or updated an existing one.
#[derive(Debug, Clone, Copy, PartialEq, Eq, Structural)]
pub enum UpsertAction {
    Created,
    Updated,
}

impl UpsertAction {
    pub open spec fn verb_spec(self) -> Seq<char> {
        match self {
            UpsertAction::Created => "Created"@,
            UpsertAction::Updated => "Updated"@,
        }
    }

    pub fn verb(self) -> (res: &'static str)
        ensures
            res@ == self.verb_spec(),
    {
        match self {
            UpsertAction::Created => "Created",
            UpsertAction::Updated => "Updated",
        }
    }
}

/// A GitHub release to create or update, and the assets to attach.
#[derive(Debug)]
pub struct ReleasePlan {
    pub tag: String,
    pub name: String,
    pub body: String,
    pub draft: bool,
    pub prerelease: bool,
    pub assets: Vec<String>,
}

} // verus!
