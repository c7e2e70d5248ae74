//! The Markdown "release preview" of a pull request: the next version of
//! each package and, for some, a collapsible preview of the release notes.
use vstd::prelude::*;

use crate::config::{render_spec, Config};
use crate::text::{append_str, chars_of, string_from, trim};
use crate::version::{version_text, PackageRelease};

verus! {

/// Marker that finds the sticky preview comment again.
pub const PREVIEW_MARKER: &'static str = "<!-- super-release:preview -->";

/// The bump column: the level, with the dependency chain for a propagated
/// release.
pub open spec fn bump_text(r: PackageRelease) -> Seq<char> {
    match r.propagated_from {
        Some(reason) => r.bump.name_of() + " (via "@ + reason@ + seq![')'],
        None => r.bump.name_of(),
    }
}

/// One table row.
pub open spec fn row_text(cfg: Config, r: PackageRelease) -> Seq<char> {
    "| `"@ + r.package_name@ + "` | "@ + bump_text(r) + " | `"@ + version_text(r.current_version.parts())
        + "` → `"@ + version_text(r.next_version.parts()) + "` | `"@ + render_spec(
        cfg.template_spec(r.is_root),
        r.package_name@,
        version_text(r.next_version.parts()),
    ) + "` |\n"@
}

pub open spec fn rows_text(cfg: Config, rs: Seq<PackageRelease>) -> Seq<char>
    decreases rs.len(),
{
    if rs.len() == 0 {
        Seq::empty()
    } else {
        rows_text(cfg, rs.drop_last()) + row_text(cfg, rs.last())
    }
}

/// The collapsible notes of one release, when it has notes.
pub open spec fn details_text(r: PackageRelease, notes: Option<String>) -> Seq<char> {
    match notes {
        Some(n) => "<details>\n<summary><code>"@ + r.package_name@ + seq!['@'] + version_text(
            r.next_version.parts(),
        ) + "</code> release notes</summary>\n\n"@ + trim(n@) + "\n\n</details>\n\n"@,
        None => Seq::empty(),
    }
}

pub open spec fn all_details(rs: Seq<PackageRelease>, notes: Seq<Option<String>>) -> Seq<char>
    decreases rs.len(),
{
    if rs.len() == 0 {
        Seq::empty()
    } else {
        all_details(rs.drop_last(), notes.drop_last()) + details_text(rs.last(), notes.last())
    }
}

/// The preview: the marker line, a heading, and either a note that nothing
/// is released or the table of releases, their notes and a caveat.
pub open spec fn preview_spec(cfg: Config, rs: Seq<PackageRelease>, notes: Seq<Option<String>>) -> Seq<char> {
    let head = PREVIEW_MARKER@ + "\n"@ + "## 📦 Release preview\n\n"@;
    if rs.len() == 0 {
        head + "No release will be triggered by this pull request.\n"@
    } else {
        head + "The following release(s) would be published when this pull request is merged:\n\n"@
            + "| Package | Bump | Version | Tag |\n"@ + "| --- | --- | --- | --- |\n"@ + rows_text(cfg, rs)
            + "\n"@ + all_details(rs, notes)
            + "> ℹ️ Preview based on the current commits in this branch — the final release may differ (e.g. after a squash-merge).\n"@
    }
}

fn push_row(out: &mut Vec<char>, cfg: &Config, r: &PackageRelease)
    ensures
        final(out)@ == old(out)@ + row_text(*cfg, *r),
{
    let ghost o0 = out@;
    append_str(out, "| `");
    append_str(out, r.package_name.as_str());
    append_str(out, "` | ");
    append_str(out, r.bump.as_str());
    match &r.propagated_from {
        Some(reason) => {
            append_str(out, " (via ");
            append_str(out, reason.as_str());
            out.push(')');
        },
        None => {},
    }
    append_str(out, " | `");
    let cur = r.current_version.to_string();
    append_str(out, cur.as_str());
    append_str(out, "` → `");
    let next = r.next_version.to_string();
    append_str(out, next.as_str());
    append_str(out, "` | `");
    let tag = cfg.format_tag(r.package_name.as_str(), &r.next_version, r.is_root);
    append_str(out, tag.as_str());
    append_str(out, "` |\n");
    assert(out@ =~= o0 + row_text(*cfg, *r));
}

fn push_details(out: &mut Vec<char>, r: &PackageRelease, notes: &Option<String>)
    ensures
        final(out)@ == old(out)@ + details_text(*r, *notes),
{
    let ghost o0 = out@;
    match notes {
        Some(n) => {
            append_str(out, "<details>\n<summary><code>");
            append_str(out, r.package_name.as_str());
            out.push('@');
            let next = r.next_version.to_string();
            append_str(out, next.as_str());
            append_str(out, "</code> release notes</summary>\n\n");
            let t = crate::text::trim_str(n.as_str());
            crate::text::append_chars(out, &t);
            append_str(out, "\n\n</details>\n\n");
            assert(out@ =~= o0 + details_text(*r, *notes));
        },
        None => {
            assert(out@ =~= o0 + details_text(*r, *notes));
        },
    }
}

/// Renders the release preview; `notes[i]` is the notes text shown for
/// release `i`, if any. The first line is always the marker.
pub fn render_preview_markdown(releases: &Vec<PackageRelease>, notes: &Vec<Option<String>>, cfg: &Config) -> (res: String)
    requires
        notes@.len() == releases@.len(),
    ensures
        res@ == preview_spec(*cfg, releases@, notes@),
{
    let mut out: Vec<char> = Vec::new();
    append_str(&mut out, PREVIEW_MARKER);
    append_str(&mut out, "\n");
    append_str(&mut out, "## 📦 Release preview\n\n");
    if releases.len() == 0 {
        append_str(&mut out, "No release will be triggered by this pull request.\n");
        return string_from(&out);
    }
    append_str(&mut out, "The following release(s) would be published when this pull request is merged:\n\n");
    append_str(&mut out, "| Package | Bump | Version | Tag |\n");
    append_str(&mut out, "| --- | --- | --- | --- |\n");
    let ghost before_rows = out@;
    let mut i: usize = 0;
    while i < releases.len()
        invariant
            i <= releases@.len(),
            out@ == before_rows + rows_text(*cfg, releases@.take(i as int)),
        decreases releases@.len() - i,
    {
        assert(releases@.take((i + 1) as int).drop_last() =~= releases@.take(i as int));
        assert(releases@.take((i + 1) as int).last() == releases@[i as int]);
        push_row(&mut out, cfg, &releases[i]);
        i = i + 1;
    }
    assert(releases@.take(releases@.len() as int) =~= releases@);
    append_str(&mut out, "\n");
    let ghost before_details = out@;
    let mut k: usize = 0;
    while k < releases.len()
        invariant
            k <= releases@.len(),
            notes@.len() == releases@.len(),
            out@ == before_details + all_details(releases@.take(k as int), notes@.take(k as int)),
        decreases releases@.len() - k,
    {
        assert(releases@.take((k + 1) as int).drop_last() =~= releases@.take(k as int));
        assert(notes@.take((k + 1) as int).drop_last() =~= notes@.take(k as int));
        assert(releases@.take((k + 1) as int).last() == releases@[k as int]);
        assert(notes@.take((k + 1) as int).last() == notes@[k as int]);
        push_details(&mut out, &releases[k], &notes[k]);
        k = k + 1;
    }
    assert(releases@.take(releases@.len() as int) =~= releases@);
    assert(notes@.take(notes@.len() as int) =~= notes@);
    append_str(&mut out, "> ℹ️ Preview based on the current commits in this branch — the final release may differ (e.g. after a squash-merge).\n");
    string_from(&out)
}

} // verus!
