//! The exec step: the commands it runs and the files it reports.
use vstd::prelude::*;

use crate::text::{chars_of, replace, replace_all, string_from, views};
use crate::version::{version_text, PackageRelease};

verus! {

/// Options of the exec step.
#[derive(Debug)]
pub struct ExecOptions {
    /// Command run in the prepare phase (`{version}`, `{name}`, `{channel}`).
    pub prepare_cmd: Option<String>,
    /// Command run in the publish phase.
    pub publish_cmd: Option<String>,
    /// Files (templates) to include in the release commit.
    pub files: Vec<String>,
}

impl Default for ExecOptions {
    fn default() -> (res: Self)
        ensures
            res.prepare_cmd is None,
            res.publish_cmd is None,
            res.files@.len() == 0,
    {
        ExecOptions { prepare_cmd: None, publish_cmd: None, files: Vec::new() }
    }
}

/// The exec step.
#[derive(Debug, Clone, Copy, PartialEq, Eq, Structural)]
pub struct ExecStep;

/// A template with `{version}` and then `{name}` substituted for a release.
pub open spec fn file_spec(pattern: Seq<char>, r: PackageRelease) -> Seq<char> {
    replace_all(replace_all(pattern, "{version}"@, version_text(r.next_version.parts())), "{name}"@, r.package_name@)
}

/// The command for a release: `{version}`, `{name}` and `{channel}`
/// substituted in that order.
pub open spec fn command_spec(template: Seq<char>, r: PackageRelease, channel: Seq<char>) -> Seq<char> {
    replace_all(file_spec(template, r), "{channel}"@, channel)
}

fn fill(pattern: &str, r: &PackageRelease) -> (res: Vec<char>)
    ensures
        res@ == file_spec(pattern@, *r),
{
    proof {
        reveal_strlit("{version}");
        reveal_strlit("{name}");
    }
    let v = r.next_version.to_string();
    let a = replace(&chars_of(pattern), &chars_of("{version}"), &chars_of(v.as_str()));
    replace(&a, &chars_of("{name}"), &chars_of(r.package_name.as_str()))
}

/// The command run for a release.
pub fn release_command(template: &str, r: &PackageRelease, channel: &str) -> (res: String)
    ensures
        res@ == command_spec(template@, *r, channel@),
{
    proof {
        reveal_strlit("{channel}");
    }
    let a = fill(template, r);
    let b = replace(&a, &chars_of("{channel}"), &chars_of(channel));
    string_from(&b)
}

/// Every file template for every release, release by release.
pub open spec fn files_spec(patterns: Seq<Seq<char>>, releases: Seq<PackageRelease>) -> Seq<Seq<char>>
    decreases releases.len(),
{
    if releases.len() == 0 {
        Seq::empty()
    } else {
        files_spec(patterns, releases.drop_last()) + patterns.map_values(|p: Seq<char>| file_spec(p, releases.last()))
    }
}

/// The files the step reports for the releases.
pub fn resolve_files(patterns: &Vec<String>, releases: &[PackageRelease]) -> (res: Vec<String>)
    ensures
        views(res@) == files_spec(views(patterns@), releases@),
{
    let mut out: Vec<String> = Vec::new();
    let mut r: usize = 0;
    while r < releases.len()
        invariant
            r <= releases@.len(),
            views(out@) == files_spec(views(patterns@), releases@.take(r as int)),
        decreases releases@.len() - r,
    {
        assert(releases@.take((r + 1) as int).drop_last() =~= releases@.take(r as int));
        assert(releases@.take((r + 1) as int).last() == releases@[r as int]);
        let ghost base = views(out@);
        let mut p: usize = 0;
        while p < patterns.len()
            invariant
                p <= patterns@.len(),
                r < releases@.len(),
                views(out@) == base + views(patterns@).take(p as int).map_values(|q: Seq<char>| file_spec(q, releases@[r as int])),
            decreases patterns@.len() - p,
        {
            let f = fill(patterns[p].as_str(), &releases[r]);
            let ghost o0 = views(out@);
            out.push(string_from(&f));
            assert(views(out@) =~= o0.push(file_spec(patterns@[p as int]@, releases@[r as int])));
            assert(views(patterns@).take((p + 1) as int).map_values(|q: Seq<char>| file_spec(q, releases@[r as int])) =~= views(patterns@).take(p as int).map_values(|q: Seq<char>| file_spec(q, releases@[r as int])).push(file_spec(patterns@[p as int]@, releases@[r as int])));
            p = p + 1;
        }
        assert(views(patterns@).take(patterns@.len() as int) =~= views(patterns@));
        r = r + 1;
    }
    assert(releases@.take(releases@.len() as int) =~= releases@);
    out
}

} // verus!
