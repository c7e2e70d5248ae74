//! Release notes and the changelog file.
//!
//! The notes are rendered by git-cliff from the release's commits; placing
//! them in the changelog file is decided here.
use vstd::prelude::*;

pub mod request;

use crate::text::{chars_of, contains, contains_seq, first_match, string_from};
use crate::version::{version_text, PackageRelease};
use request::{cliff_release_notes, notes_request};

verus! {

/// Options of the changelog step.
#[derive(Debug)]
pub struct ChangelogOptions {
    /// Output file name.
    pub filename: String,
    /// Lines shown in a dry-run preview.
    pub preview_lines: usize,
}

impl Default for ChangelogOptions {
    fn default() -> (res: Self)
        ensures
            res.filename@ == "CHANGELOG.md"@,
            res.preview_lines == 20,
    {
        ChangelogOptions { filename: crate::text::owned_string("CHANGELOG.md"), preview_lines: 20 }
    }
}

/// The changelog step.
#[derive(Debug, Clone, Copy, PartialEq, Eq, Structural)]
pub struct ChangelogStep;

/// The current time in seconds (`chrono::Local::now().timestamp()`); nothing
/// is claimed of it.
#[verifier::external_body]
fn now_timestamp() -> i64 {
    chrono::Local::now().timestamp()
}

/// Why release notes could not be rendered.
#[derive(Debug, Clone, Copy, PartialEq, Eq, Structural)]
pub enum NotesError {
    Render,
}

/// The outcome of a rendering: its text, or `Render` when git-cliff failed.
pub fn notes_outcome(rendered: Option<String>) -> (res: Result<String, NotesError>)
    ensures
        match rendered {
            Some(n) => res matches Ok(t) && t@ == n@,
            None => res == Err::<String, NotesError>(NotesError::Render),
        },
{
    match rendered {
        Some(n) => Ok(n),
        None => Err(NotesError::Render),
    }
}

/// The markdown release notes of a release, rendered now by git-cliff from
/// `notes_request(release)`: the next version after the current one, with the
/// ids and messages of its commits. What git-cliff renders depends on the
/// environment, so only the shape of the outcome is stated.
pub fn generate_release_notes(release: &PackageRelease) -> (res: Result<String, NotesError>)
    ensures
        res matches Err(e) ==> e == NotesError::Render,
{
    let request = notes_request(release);
    let ts = now_timestamp();
    notes_outcome(cliff_release_notes(&request, ts))
}

/// `## [<version>]`, the heading git-cliff gives a release.
pub open spec fn version_heading(version: Seq<char>) -> Seq<char> {
    "## ["@ + version + seq![']']
}

/// Whether a changelog already has a section for `version`.
pub fn changelog_contains_version(existing: &str, version: &str) -> (res: bool)
    ensures
        res == contains_seq(existing@, version_heading(version@)),
{
    let mut h = chars_of("## [");
    crate::text::append_str(&mut h, version);
    h.push(']');
    assert(h@ =~= version_heading(version@));
    let e = chars_of(existing);
    contains(&e, &h)
}

/// `s` without leading newlines.
pub open spec fn trim_start_newlines(s: Seq<char>) -> Seq<char>
    decreases s.len(),
{
    if s.len() > 0 && s[0] == '\n' {
        trim_start_newlines(s.drop_first())
    } else {
        s
    }
}

/// The changelog with the new notes on top, under a `# Changelog` header
/// (an existing header is kept once, its following newlines dropped).
pub open spec fn changelog_body_spec(new_content: Seq<char>, existing: Seq<char>) -> Seq<char> {
    let header = "# Changelog\n\n"@;
    if "# Changelog"@.is_prefix_of(existing) {
        header + new_content + trim_start_newlines(existing.skip(11))
    } else if existing.len() == 0 {
        header + new_content
    } else {
        header + new_content + existing
    }
}

/// The new contents of a changelog file.
pub fn changelog_body(new_content: &str, existing: &str) -> (res: String)
    ensures
        res@ == changelog_body_spec(new_content@, existing@),
{
    proof {
        reveal_strlit("# Changelog");
    }
    let e = chars_of(existing);
    let mut out = chars_of("# Changelog\n\n");
    crate::text::append_str(&mut out, new_content);
    let prefix = chars_of("# Changelog");
    if crate::text::starts_with(&e, &prefix) {
        let mut i: usize = 11;
        assert(e@.skip(11) =~= e@.skip(i as int));
        while i < e.len() && e[i] == '\n'
            invariant
                11 <= i <= e@.len(),
                trim_start_newlines(e@.skip(11)) == trim_start_newlines(e@.skip(i as int)),
            decreases e@.len() - i,
        {
            assert(e@.skip(i as int).drop_first() =~= e@.skip(i + 1));
            i = i + 1;
        }
        let rest = crate::text::slice(&e, i, e.len());
        assert(rest@ =~= e@.skip(i as int));
        assert(i < e@.len() ==> e@.skip(i as int)[0] == e@[i as int]);
        assert(trim_start_newlines(e@.skip(i as int)) == e@.skip(i as int));
        crate::text::append_chars(&mut out, &rest);
    } else if e.len() > 0 {
        crate::text::append_chars(&mut out, &e);
    }
    string_from(&out)
}

/// The notes to add to a changelog for `release`: `None` when the changelog
/// already has the release's section (so a rerun adds nothing twice), else the
/// notes rendered now.
pub fn pending_release_notes(existing: &str, release: &PackageRelease) -> (res: Result<Option<String>, NotesError>)
    ensures
        (res matches Ok(None)) <==> contains_seq(
            existing@,
            version_heading(version_text(release.next_version.parts())),
        ),
        res matches Err(e) ==> e == NotesError::Render,
{
    let next = release.next_version.to_string();
    if changelog_contains_version(existing, next.as_str()) {
        return Ok(None);
    }
    match generate_release_notes(release) {
        Ok(notes) => Ok(Some(notes)),
        Err(e) => Err(e),
    }
}

proof fn lemma_first_match_found(s: Seq<char>, pat: Seq<char>, i: int)
    requires
        0 <= i,
        i + pat.len() <= s.len(),
        s.subrange(i, i + pat.len()) == pat,
    ensures
        first_match(s, pat) is Some,
    decreases i,
{
    if !pat.is_prefix_of(s) {
        if i == 0 {
            assert(pat.is_prefix_of(s));
        }
        assert(s.drop_first().subrange(i - 1, i - 1 + pat.len()) =~= s.subrange(i, i + pat.len()));
        lemma_first_match_found(s.drop_first(), pat, i - 1);
    }
}

/// A changelog written from notes that hold a version's heading has that
/// version's section: the next run finds it and adds nothing.
pub proof fn law_changelog_written_has_section(notes: Seq<char>, existing: Seq<char>, version: Seq<char>)
    requires
        contains_seq(notes, version_heading(version)),
    ensures
        contains_seq(changelog_body_spec(notes, existing), version_heading(version)),
{
    reveal_strlit("# Changelog\n\n");
    let h = version_heading(version);
    let header = "# Changelog\n\n"@;
    let body = changelog_body_spec(notes, existing);
    crate::text::lemma_first_match_bounds(notes, h);
    let i = first_match(notes, h).unwrap();
    let rest = body.skip((header.len() + notes.len()) as int);
    assert(body =~= header + notes + rest);
    assert(body.subrange(header.len() + i, header.len() + i + h.len()) =~= notes.subrange(i, i + h.len()));
    lemma_first_match_found(body, h, header.len() + i);
}

} // verus!
