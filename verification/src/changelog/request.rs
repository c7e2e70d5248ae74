//! What git-cliff is asked to render for a release.
use vstd::prelude::*;

use git_cliff_core::changelog::Changelog;
use git_cliff_core::commit::Commit;
use git_cliff_core::release::Release;

use crate::text::views;
use crate::version::{cliff_inputs, keys, version_text, CommitKey, PackageRelease};

verus! {

/// The release git-cliff renders notes for: its version, the version before
/// it, and the ids and messages of its commits. Only `notes_request` makes
/// one.
pub struct NotesRequest {
    version: String,
    previous: String,
    ids: Vec<String>,
    messages: Vec<String>,
}

impl NotesRequest {
    pub closed spec fn version_view(self) -> Seq<char> {
        self.version@
    }

    pub closed spec fn previous_view(self) -> Seq<char> {
        self.previous@
    }

    pub closed spec fn ids_view(self) -> Seq<Seq<char>> {
        views(self.ids@)
    }

    pub closed spec fn messages_view(self) -> Seq<Seq<char>> {
        views(self.messages@)
    }
}

/// The request for `release`: the next version after the current one, with
/// the commits as `cliff_inputs` hands them over.
pub fn notes_request(release: &PackageRelease) -> (r: NotesRequest)
    ensures
        r.version_view() == version_text(release.next_version.parts()),
        r.previous_view() == version_text(release.current_version.parts()),
        r.ids_view() == keys(release.commits@).map_values(|k: CommitKey| k.0),
        r.messages_view() == keys(release.commits@).map_values(|k: CommitKey| k.1),
{
    let (ids, messages) = cliff_inputs(&release.commits);
    NotesRequest {
        version: release.next_version.to_string(),
        previous: release.current_version.to_string(),
        ids,
        messages,
    }
}

/// git-cliff's changelog rendering (`Changelog::generate`) of the request's
/// release after its previous version, at time `timestamp`, with the
/// configuration `"".parse()` loads. That configuration is git-cliff's
/// default one overridden by any `GIT_CLIFF__*` environment variables, so the
/// text depends on the environment: nothing is claimed of it.
#[verifier::external_body]
pub(crate) fn cliff_release_notes(request: &NotesRequest, timestamp: i64) -> Option<String> {
    let commits = request.ids.iter().zip(request.messages.iter()).map(|(i, m)| Commit::new(i.clone(), m.clone())).collect();
    let previous = Release { version: Some(request.previous.clone()), ..Default::default() };
    let release = Release { version: Some(request.version.clone()), commits,
        timestamp: Some(timestamp), previous: Some(Box::new(previous)), ..Default::default() };
    let config = "".parse().ok()?;
    let changelog = Changelog::new(vec![release], config, None).ok()?;
    let mut out = Vec::new();
    changelog.generate(&mut out).ok()?;
    String::from_utf8(out).ok()
}

} // verus!
