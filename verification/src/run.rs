//! Which releases a branch keeps and which steps run where.
use vstd::prelude::*;

use crate::commit::{cviews, ConventionalCommit};
use crate::config::branch::BranchContext;
use crate::config::{glob_match, glob_match_of, Config, StepConfig};
use crate::matcher::opt_view;
use crate::package::Package;
use crate::text::{str_eq, views};
use crate::version::{version_text, PackageRelease};
use crate::text::{chars_of, decimal, join, replace, replace_all, string_from};

verus! {

/// Some glob of `patterns` matches `value`.
pub open spec fn any_match(patterns: Seq<String>, value: Seq<char>) -> bool {
    exists|k: int| 0 <= k < patterns.len() && glob_match_of((#[trigger] patterns[k])@, value)
}

fn matches_any(patterns: &Vec<String>, value: &str) -> (res: bool)
    ensures
        res == any_match(patterns@, value@),
{
    let mut k: usize = 0;
    while k < patterns.len()
        invariant
            k <= patterns@.len(),
            forall|q: int| 0 <= q < k ==> !glob_match_of((#[trigger] patterns@[q])@, value@),
        decreases patterns@.len() - k,
    {
        if glob_match(patterns[k].as_str(), value) {
            return true;
        }
        k = k + 1;
    }
    false
}

/// The configuration's `packages` globs keep a package when there
/// are none, or when one of them matches its name.
pub fn included_by_config(wanted: &Option<Vec<String>>, name: &str) -> (res: bool)
    ensures
        res == match wanted {
            Some(patterns) => any_match(patterns@, name@),
            None => true,
        },
{
    match wanted {
        Some(patterns) => matches_any(patterns, name),
        None => true,
    }
}

/// The configuration's `exclude` globs drop a package when one of them
/// matches its name.
pub fn excluded_by_config(exclude: &Vec<String>, name: &str) -> (res: bool)
    ensures
        res == any_match(exclude@, name@),
{
    matches_any(exclude, name)
}

/// The number of non-empty `/`-separated parts of a path, by which packages
/// are listed shallowest first.
pub fn path_depth(path: &str) -> (res: usize)
    ensures
        res == crate::forge::nonempty_parts(crate::text::split_char(path@, '/')).len(),
{
    let c = chars_of(path);
    let parts = crate::text::split_chars(&c, '/');
    let ghost pv = parts@.map_values(|p: Vec<char>| p@);
    let mut n: usize = 0;
    let mut i: usize = 0;
    while i < parts.len()
        invariant
            i <= parts@.len(),
            pv == parts@.map_values(|p: Vec<char>| p@),
            n == crate::forge::nonempty_parts(pv.take(i as int)).len(),
            n <= i,
        decreases parts@.len() - i,
    {
        assert(pv.take((i + 1) as int).drop_last() =~= pv.take(i as int));
        assert(pv.take((i + 1) as int).last() == parts@[i as int]@);
        if parts[i].len() > 0 {
            n = n + 1;
        }
        i = i + 1;
    }
    assert(pv.take(parts@.len() as int) =~= pv);
    n
}

/// A filter keeps a name when it is empty or one of its globs matches.
pub open spec fn filter_keeps(patterns: Seq<String>, value: Seq<char>) -> bool {
    patterns.len() == 0 || any_match(patterns, value)
}

/// The releases a package filter keeps, in order.
pub open spec fn kept_releases(releases: Seq<PackageRelease>, patterns: Seq<String>) -> Seq<PackageRelease>
    decreases releases.len(),
{
    if releases.len() == 0 {
        Seq::empty()
    } else {
        let rest = kept_releases(releases.drop_last(), patterns);
        if filter_keeps(patterns, releases.last().package_name@) {
            rest.push(releases.last())
        } else {
            rest
        }
    }
}

/// Keeps only the releases whose package matches the branch's package filter
/// (an empty filter keeps all); returns how many were removed.
pub fn apply_branch_package_filter(releases: &mut Vec<PackageRelease>, ctx: &BranchContext) -> (removed: usize)
    ensures
        final(releases)@ == kept_releases(old(releases)@, ctx.packages@),
        removed == old(releases)@.len() - final(releases)@.len(),
{
    if ctx.packages.len() == 0 {
        proof {
            lemma_kept_all(old(releases)@, ctx.packages@);
        }
        return 0;
    }
    let ghost orig = releases@;
    let n = releases.len();
    let mut out: Vec<PackageRelease> = Vec::new();
    let mut k: usize = 0;
    while k < n
        invariant
            k <= n == orig.len(),
            ctx.packages@.len() > 0,
            releases@ == orig.skip(k as int),
            out@ == kept_releases(orig.take(k as int), ctx.packages@),
            out@.len() <= k,
        decreases n - k,
    {
        let r = releases.remove(0);
        assert(r == orig[k as int]);
        assert(orig.take((k + 1) as int).drop_last() =~= orig.take(k as int));
        if matches_any(&ctx.packages, r.package_name.as_str()) {
            out.push(r);
        }
        k = k + 1;
        assert(releases@ =~= orig.skip(k as int));
    }
    assert(orig.take(n as int) =~= orig);
    let removed = n - out.len();
    *releases = out;
    removed
}

proof fn lemma_kept_all(releases: Seq<PackageRelease>, patterns: Seq<String>)
    requires
        patterns.len() == 0,
    ensures
        kept_releases(releases, patterns) == releases,
    decreases releases.len(),
{
    if releases.len() > 0 {
        lemma_kept_all(releases.drop_last(), patterns);
        assert(releases.drop_last().push(releases.last()) =~= releases);
    }
}

/// Whether the branch releases the package: its `packages` filter is empty
/// or matches.
pub fn branch_keeps(ctx: &BranchContext, package_name: &str) -> (res: bool)
    ensures
        res == filter_keeps(ctx.packages@, package_name@),
{
    ctx.packages.len() == 0 || matches_any(&ctx.packages, package_name)
}

/// Whether a step runs on a branch: its `branches` filter is empty or matches.
pub fn step_runs_on_branch(step: &StepConfig, branch_name: &str) -> (res: bool)
    ensures
        res == filter_keeps(step.branches@, branch_name@),
{
    step.branches.len() == 0 || matches_any(&step.branches, branch_name)
}

/// Whether a step operates on a package: its `packages` filter is empty or
/// matches.
pub fn step_covers_package(step: &StepConfig, package_name: &str) -> (res: bool)
    ensures
        res == filter_keeps(step.packages@, package_name@),
{
    step.packages.len() == 0 || matches_any(&step.packages, package_name)
}

/// Whether some `changelog` step would write notes for the package on the
/// branch.
pub fn changelog_covers(cfg: &Config, branch_name: &str, package_name: &str) -> (res: bool)
    ensures
        res == exists|k: int|
            0 <= k < cfg.steps@.len() && (#[trigger] cfg.steps@[k]).name@ == "changelog"@ && filter_keeps(
                cfg.steps@[k].branches@,
                branch_name@,
            ) && filter_keeps(cfg.steps@[k].packages@, package_name@),
{
    let mut k: usize = 0;
    while k < cfg.steps.len()
        invariant
            k <= cfg.steps@.len(),
            forall|q: int|
                0 <= q < k ==> !((#[trigger] cfg.steps@[q]).name@ == "changelog"@ && filter_keeps(
                    cfg.steps@[q].branches@,
                    branch_name@,
                ) && filter_keeps(cfg.steps@[q].packages@, package_name@)),
        decreases cfg.steps@.len() - k,
    {
        let s = &cfg.steps[k];
        if str_eq(s.name.as_str(), "changelog") && step_runs_on_branch(s, branch_name)
            && step_covers_package(s, package_name) {
            return true;
        }
        k = k + 1;
    }
    false
}

/// The packages a package filter keeps, in order.
pub open spec fn kept_packages(packages: Seq<Package>, patterns: Seq<String>) -> Seq<Package>
    decreases packages.len(),
{
    if packages.len() == 0 {
        Seq::empty()
    } else {
        let rest = kept_packages(packages.drop_last(), patterns);
        if filter_keeps(patterns, packages.last().name@) {
            rest.push(packages.last())
        } else {
            rest
        }
    }
}

/// The packages and releases a step operates on (its `packages` glob filter;
/// an empty filter keeps all), as copies.
pub fn filter_for_step(step: &StepConfig, packages: &[Package], releases: &[PackageRelease]) -> (res: (Vec<Package>, Vec<PackageRelease>))
    ensures
        res.0@.len() == kept_packages(packages@, step.packages@).len(),
        forall|j: int| 0 <= j < res.0@.len() ==> (#[trigger] res.0@[j]).same(kept_packages(packages@, step.packages@)[j]),
        res.1@.len() == kept_releases(releases@, step.packages@).len(),
        forall|j: int| 0 <= j < res.1@.len() ==> (#[trigger] res.1@[j]).same(kept_releases(releases@, step.packages@)[j]),
{
    let mut ps: Vec<Package> = Vec::new();
    let mut i: usize = 0;
    while i < packages.len()
        invariant
            i <= packages@.len(),
            ps@.len() == kept_packages(packages@.take(i as int), step.packages@).len(),
            forall|j: int| 0 <= j < ps@.len() ==> (#[trigger] ps@[j]).same(kept_packages(packages@.take(i as int), step.packages@)[j]),
        decreases packages@.len() - i,
    {
        assert(packages@.take((i + 1) as int).drop_last() =~= packages@.take(i as int));
        assert(packages@.take((i + 1) as int).last() == packages@[i as int]);
        if step_covers_package(step, packages[i].name.as_str()) {
            let c = packages[i].duplicate();
            ps.push(c);
        }
        i = i + 1;
    }
    assert(packages@.take(packages@.len() as int) =~= packages@);
    let mut rs: Vec<PackageRelease> = Vec::new();
    let mut k: usize = 0;
    while k < releases.len()
        invariant
            k <= releases@.len(),
            rs@.len() == kept_releases(releases@.take(k as int), step.packages@).len(),
            forall|j: int| 0 <= j < rs@.len() ==> (#[trigger] rs@[j]).same(kept_releases(releases@.take(k as int), step.packages@)[j]),
        decreases releases@.len() - k,
    {
        assert(releases@.take((k + 1) as int).drop_last() =~= releases@.take(k as int));
        assert(releases@.take((k + 1) as int).last() == releases@[k as int]);
        if step_covers_package(step, releases[k].package_name.as_str()) {
            let c = releases[k].duplicate();
            rs.push(c);
        }
        k = k + 1;
    }
    assert(releases@.take(releases@.len() as int) =~= releases@);
    (ps, rs)
}

/// The command line.
#[derive(Debug)]
pub struct Cli {
    /// Show what would happen without making changes.
    pub dry_run: bool,
    /// Path to the repository root.
    pub path: String,
    /// Path to the config file.
    pub config: Option<String>,
    /// Print the next version of a package and exit.
    pub show_next_version: bool,
    /// Render a release preview for a pull request and exit.
    pub preview: bool,
    /// Pull request id for the preview.
    pub pr: Option<String>,
    /// Repository as `owner/name` for the preview.
    pub repo: Option<String>,
    /// Base branch the preview is evaluated against.
    pub base: Option<String>,
    /// Never post a preview comment.
    pub no_comment: bool,
    /// The package of `--show-next-version`.
    pub package: Option<String>,
    /// Verbose output.
    pub verbose: bool,
    /// Skip validating the config file.
    pub dangerously_skip_config_check: bool,
}

/// Why no package could be chosen for `--show-next-version`.
#[derive(Debug, Clone, Copy, PartialEq, Eq, Structural)]
pub enum TargetError {
    /// No package matches the filter.
    NotFound,
    /// Several packages and no root one: `--package` is needed.
    Ambiguous,
}

/// The first package named `name` or matched by it as a glob.
pub open spec fn first_match_upto(pkgs: Seq<Package>, name: Seq<char>, k: int) -> Option<int>
    decreases k,
{
    if k <= 0 {
        None
    } else {
        match first_match_upto(pkgs, name, k - 1) {
            Some(i) => Some(i),
            None => if pkgs[k - 1].name@ == name || glob_match_of(name, pkgs[k - 1].name@) {
                Some(k - 1)
            } else {
                None
            },
        }
    }
}

/// The first root package.
pub open spec fn first_root_upto(pkgs: Seq<Package>, k: int) -> Option<int>
    decreases k,
{
    if k <= 0 {
        None
    } else {
        match first_root_upto(pkgs, k - 1) {
            Some(i) => Some(i),
            None => if pkgs[k - 1].is_root {
                Some(k - 1)
            } else {
                None
            },
        }
    }
}

/// The package `--show-next-version` reports: the first one matching
/// `--package`; without it, the only package, or else the root package.
pub open spec fn target_spec(pkgs: Seq<Package>, filter: Option<Seq<char>>) -> Result<int, TargetError> {
    match filter {
        Some(name) => match first_match_upto(pkgs, name, pkgs.len() as int) {
            Some(i) => Ok(i),
            None => Err(TargetError::NotFound),
        },
        None => if pkgs.len() == 1 {
            Ok(0)
        } else {
            match first_root_upto(pkgs, pkgs.len() as int) {
                Some(i) => Ok(i),
                None => Err(TargetError::Ambiguous),
            }
        },
    }
}

/// The package `--show-next-version` reports.
pub fn show_target(packages: &[Package], filter: Option<&str>) -> (res: Result<usize, TargetError>)
    ensures
        match target_spec(packages@, match filter {
            Some(f) => Some(f@),
            None => None,
        }) {
            Ok(i) => res == Ok::<usize, TargetError>(i as usize) && i < packages@.len(),
            Err(e) => res == Err::<usize, TargetError>(e),
        },
{
    match filter {
        Some(name) => {
            let mut i: usize = 0;
            while i < packages.len()
                invariant
                    i <= packages@.len(),
                    filter == Some(name),
                    first_match_upto(packages@, name@, i as int) is None,
                decreases packages@.len() - i,
            {
                if str_eq(packages[i].name.as_str(), name) || glob_match(name, packages[i].name.as_str()) {
                    assert(first_match_upto(packages@, name@, (i + 1) as int) == Some(i as int));
                    proof {
                        lemma_first_match_stays(packages@, name@, (i + 1) as int, packages@.len() as int);
                    }
                    return Ok(i);
                }
                i = i + 1;
            }
            Err(TargetError::NotFound)
        },
        None => {
            if packages.len() == 1 {
                return Ok(0);
            }
            let mut i: usize = 0;
            while i < packages.len()
                invariant
                    i <= packages@.len(),
                    packages@.len() != 1,
                    filter is None,
                    first_root_upto(packages@, i as int) is None,
                decreases packages@.len() - i,
            {
                if packages[i].is_root {
                    assert(first_root_upto(packages@, (i + 1) as int) == Some(i as int));
                    proof {
                        lemma_first_root_stays(packages@, (i + 1) as int, packages@.len() as int);
                    }
                    return Ok(i);
                }
                i = i + 1;
            }
            Err(TargetError::Ambiguous)
        },
    }
}

proof fn lemma_first_match_stays(pkgs: Seq<Package>, name: Seq<char>, k: int, m: int)
    requires
        0 <= k <= m,
        first_match_upto(pkgs, name, k) is Some,
    ensures
        first_match_upto(pkgs, name, m) == first_match_upto(pkgs, name, k),
    decreases m,
{
    if m > k {
        lemma_first_match_stays(pkgs, name, k, m - 1);
    }
}

proof fn lemma_first_root_stays(pkgs: Seq<Package>, k: int, m: int)
    requires
        0 <= k <= m,
        first_root_upto(pkgs, k) is Some,
    ensures
        first_root_upto(pkgs, m) == first_root_upto(pkgs, k),
    decreases m,
{
    if m > k {
        lemma_first_root_stays(pkgs, k, m - 1);
    }
}

/// The first release of a package name.
pub open spec fn release_of(releases: Seq<PackageRelease>, name: Seq<char>, k: int) -> Option<int>
    decreases k,
{
    if k <= 0 {
        None
    } else {
        match release_of(releases, name, k - 1) {
            Some(i) => Some(i),
            None => if releases[k - 1].package_name@ == name {
                Some(k - 1)
            } else {
                None
            },
        }
    }
}

/// The version `--show-next-version` prints for a package: the next version
/// of its release, or its current version when it has none.
pub fn shown_version(package: &Package, releases: &[PackageRelease]) -> (res: String)
    ensures
        res@ == match release_of(releases@, package.name@, releases@.len() as int) {
            Some(i) => version_text(releases@[i].next_version.parts()),
            None => version_text(package.version.parts()),
        },
{
    let mut i: usize = 0;
    while i < releases.len()
        invariant
            i <= releases@.len(),
            release_of(releases@, package.name@, i as int) is None,
        decreases releases@.len() - i,
    {
        if str_eq(releases[i].package_name.as_str(), package.name.as_str()) {
            proof {
                lemma_release_of_stays(releases@, package.name@, (i + 1) as int, releases@.len() as int);
            }
            return releases[i].next_version.to_string();
        }
        i = i + 1;
    }
    package.version.to_string()
}

proof fn lemma_release_of_stays(releases: Seq<PackageRelease>, name: Seq<char>, k: int, m: int)
    requires
        0 <= k <= m,
        release_of(releases, name, k) is Some,
    ensures
        release_of(releases, name, m) == release_of(releases, name, k),
    decreases m,
{
    if m > k {
        lemma_release_of_stays(releases, name, k, m - 1);
    }
}

/// `name@next`, as the release list names a release.
pub open spec fn release_item(r: PackageRelease) -> Seq<char> {
    r.package_name@ + seq!['@'] + version_text(r.next_version.parts())
}

/// `  - name current -> next`, as the summary names a release.
pub open spec fn summary_item(r: PackageRelease) -> Seq<char> {
    "  - "@ + r.package_name@ + seq![' '] + version_text(r.current_version.parts()) + " -> "@ + version_text(
        r.next_version.parts(),
    )
}

/// The release commit message: the template with `{releases}` (comma
/// separated `name@version`), `{summary}` (one line per release) and
/// `{count}` substituted in that order.
pub open spec fn commit_message_spec(template: Seq<char>, releases: Seq<PackageRelease>) -> Seq<char> {
    replace_all(
        replace_all(
            replace_all(template, "{releases}"@, join(releases.map_values(|r: PackageRelease| release_item(r)), seq![',', ' '])),
            "{summary}"@,
            join(releases.map_values(|r: PackageRelease| summary_item(r)), seq!['\n']),
        ),
        "{count}"@,
        decimal(releases.len()),
    )
}

fn join_pieces(pieces: &Vec<Vec<char>>, sep: &Vec<char>) -> (res: Vec<char>)
    ensures
        res@ == join(pieces@.map_values(|v: Vec<char>| v@), sep@),
{
    let ghost pv = pieces@.map_values(|v: Vec<char>| v@);
    let mut out: Vec<char> = Vec::new();
    let mut i: usize = 0;
    while i < pieces.len()
        invariant
            i <= pieces@.len(),
            pv == pieces@.map_values(|v: Vec<char>| v@),
            out@ == join(pv.take(i as int), sep@),
        decreases pieces@.len() - i,
    {
        let ghost t = pv.take((i + 1) as int);
        assert(t.drop_last() =~= pv.take(i as int));
        assert(t.last() == pieces@[i as int]@);
        if i > 0 {
            crate::text::append_chars(&mut out, sep);
        }
        crate::text::append_chars(&mut out, &pieces[i]);
        if i == 0 {
            assert(t =~= seq![pieces@[0]@]);
        }
        i = i + 1;
    }
    assert(pv.take(pieces@.len() as int) =~= pv);
    out
}

/// The message of the release commit.
pub fn commit_message(template: &str, releases: &[PackageRelease]) -> (res: String)
    ensures
        res@ == commit_message_spec(template@, releases@),
{
    proof {
        reveal_strlit("{releases}");
        reveal_strlit("{summary}");
        reveal_strlit("{count}");
    }
    let mut items: Vec<Vec<char>> = Vec::new();
    let mut lines: Vec<Vec<char>> = Vec::new();
    let mut i: usize = 0;
    while i < releases.len()
        invariant
            i <= releases@.len(),
            items@.map_values(|v: Vec<char>| v@) == releases@.take(i as int).map_values(|r: PackageRelease| release_item(r)),
            lines@.map_values(|v: Vec<char>| v@) == releases@.take(i as int).map_values(|r: PackageRelease| summary_item(r)),
        decreases releases@.len() - i,
    {
        let r = &releases[i];
        let next = r.next_version.to_string();
        let cur = r.current_version.to_string();
        let mut a = chars_of(r.package_name.as_str());
        a.push('@');
        crate::text::append_str(&mut a, next.as_str());
        assert(a@ =~= release_item(*r));
        let mut b = chars_of("  - ");
        crate::text::append_str(&mut b, r.package_name.as_str());
        b.push(' ');
        crate::text::append_str(&mut b, cur.as_str());
        crate::text::append_str(&mut b, " -> ");
        crate::text::append_str(&mut b, next.as_str());
        assert(b@ =~= summary_item(*r));
        let ghost i0 = items@;
        let ghost l0 = lines@;
        let ghost av = a@;
        let ghost bv = b@;
        items.push(a);
        lines.push(b);
        assert(items@.map_values(|v: Vec<char>| v@) =~= i0.map_values(|v: Vec<char>| v@).push(av));
        assert(lines@.map_values(|v: Vec<char>| v@) =~= l0.map_values(|v: Vec<char>| v@).push(bv));
        assert(releases@.take((i + 1) as int) =~= releases@.take(i as int).push(*r));
        assert(releases@.take((i + 1) as int).map_values(|r: PackageRelease| release_item(r)) =~= releases@.take(i as int).map_values(|r: PackageRelease| release_item(r)).push(release_item(*r)));
        assert(releases@.take((i + 1) as int).map_values(|r: PackageRelease| summary_item(r)) =~= releases@.take(i as int).map_values(|r: PackageRelease| summary_item(r)).push(summary_item(*r)));
        assert(items@.map_values(|v: Vec<char>| v@) =~= releases@.take((i + 1) as int).map_values(|r: PackageRelease| release_item(r)));
        assert(lines@.map_values(|v: Vec<char>| v@) =~= releases@.take((i + 1) as int).map_values(|r: PackageRelease| summary_item(r)));
        i = i + 1;
    }
    assert(releases@.take(releases@.len() as int) =~= releases@);
    let mut comma: Vec<char> = Vec::new();
    comma.push(',');
    comma.push(' ');
    let mut nl: Vec<char> = Vec::new();
    nl.push('\n');
    assert(comma@ =~= seq![',', ' ']);
    assert(nl@ =~= seq!['\n']);
    let list = join_pieces(&items, &comma);
    let summary = join_pieces(&lines, &nl);
    let count = crate::text::u64_to_string(releases.len() as u64);
    let t = chars_of(template);
    let a = replace(&t, &chars_of("{releases}"), &list);
    let b = replace(&a, &chars_of("{summary}"), &summary);
    let c = replace(&b, &chars_of("{count}"), &chars_of(count.as_str()));
    string_from(&c)
}

/// The annotation of a release tag: `Release <name> v<version>`.
pub fn tag_message(release: &PackageRelease) -> (res: String)
    ensures
        res@ == "Release "@ + release.package_name@ + " v"@ + version_text(release.next_version.parts()),
{
    let mut v = chars_of("Release ");
    crate::text::append_str(&mut v, release.package_name.as_str());
    crate::text::append_str(&mut v, " v");
    let next = release.next_version.to_string();
    crate::text::append_str(&mut v, next.as_str());
    string_from(&v)
}

// ---------------------------------------------------------------------------
// Idempotent tagging and pushing
// ---------------------------------------------------------------------------

/// The tags whose flag in `skip` is false, in order.
pub open spec fn kept_unflagged(tags: Seq<Seq<char>>, skip: Seq<bool>) -> Seq<Seq<char>>
    decreases tags.len(),
{
    if tags.len() == 0 {
        Seq::empty()
    } else {
        let rest = kept_unflagged(tags.drop_last(), skip.take(tags.len() - 1));
        if skip[tags.len() - 1] {
            rest
        } else {
            rest.push(tags.last())
        }
    }
}

fn keep_unflagged(tags: &Vec<String>, skip: &Vec<bool>) -> (res: Vec<String>)
    requires
        tags@.len() == skip@.len(),
    ensures
        views(res@) == kept_unflagged(views(tags@), skip@),
{
    let ghost tv = views(tags@);
    let mut out: Vec<String> = Vec::new();
    let mut i: usize = 0;
    while i < tags.len()
        invariant
            i <= tags@.len(),
            tags@.len() == skip@.len(),
            tv == views(tags@),
            views(out@) == kept_unflagged(tv.take(i as int), skip@.take(i as int)),
        decreases tags@.len() - i,
    {
        assert(tv.take((i + 1) as int).drop_last() =~= tv.take(i as int));
        assert(skip@.take((i + 1) as int).take(i as int) =~= skip@.take(i as int));
        assert(tv.take((i + 1) as int).last() == tags@[i as int]@);
        if !skip[i] {
            let ghost o0 = views(out@);
            out.push(tags[i].clone());
            assert(views(out@) =~= o0.push(tags@[i as int]@));
        }
        i = i + 1;
    }
    assert(tv.take(tags@.len() as int) =~= tv);
    assert(skip@.take(tags@.len() as int) =~= skip@);
    out
}

/// The release tags to create: those that do not exist yet (`exists[i]` for
/// `tags[i]`), in order; an existing tag is skipped, so a rerun after a
/// partial failure creates only what is missing.
pub fn tags_to_create(tags: &Vec<String>, exists: &Vec<bool>) -> (res: Vec<String>)
    requires
        tags@.len() == exists@.len(),
    ensures
        views(res@) == kept_unflagged(views(tags@), exists@),
{
    keep_unflagged(tags, exists)
}

/// Whether a remote already has each tag (`remote[i]` is the commit it
/// points at there, if any).
pub open spec fn on_remote(remote: Seq<Option<String>>) -> Seq<bool> {
    remote.map_values(|r: Option<String>| r is Some)
}

/// The created tags to push: those the remote does not have yet, in order.
pub fn tags_to_push(created: &Vec<String>, remote: &Vec<Option<String>>) -> (res: Vec<String>)
    requires
        created@.len() == remote@.len(),
    ensures
        views(res@) == kept_unflagged(views(created@), on_remote(remote@)),
{
    let mut flags: Vec<bool> = Vec::new();
    let mut i: usize = 0;
    while i < remote.len()
        invariant
            i <= remote@.len(),
            flags@ == on_remote(remote@).take(i as int),
        decreases remote@.len() - i,
    {
        flags.push(remote[i].is_some());
        assert(on_remote(remote@).take((i + 1) as int) =~= on_remote(remote@).take(i as int).push(remote@[i as int] is Some));
        i = i + 1;
    }
    assert(on_remote(remote@).take(remote@.len() as int) =~= on_remote(remote@));
    keep_unflagged(created, &flags)
}

/// A push is needed when there is a release commit or a tag to push.
pub fn push_needed(has_staged: bool, to_push: &Vec<String>) -> (res: bool)
    ensures
        res == (has_staged || to_push@.len() > 0),
{
    has_staged || to_push.len() > 0
}

proof fn lemma_all_flagged_keeps_nothing(tags: Seq<Seq<char>>, skip: Seq<bool>)
    requires
        tags.len() == skip.len(),
        forall|i: int| 0 <= i < skip.len() ==> skip[i],
    ensures
        kept_unflagged(tags, skip).len() == 0,
    decreases tags.len(),
{
    if tags.len() > 0 {
        lemma_all_flagged_keeps_nothing(tags.drop_last(), skip.take(tags.len() - 1));
    }
}

/// A rerun after a finished release is harmless: when every tag of the plan
/// already exists, no tag is created, so none is pushed whatever the remote
/// has, and a push happens only when the run made a release commit.
pub proof fn law_rerun_creates_and_pushes_no_tag(tags: Seq<Seq<char>>, exists: Seq<bool>)
    requires
        tags.len() == exists.len(),
        forall|i: int| 0 <= i < exists.len() ==> exists[i],
    ensures
        kept_unflagged(tags, exists).len() == 0,
        forall|remote: Seq<Option<String>>|
            #![trigger on_remote(remote)]
            kept_unflagged(kept_unflagged(tags, exists), on_remote(remote)).len() == 0,
{
    lemma_all_flagged_keeps_nothing(tags, exists);
}

} // verus!

