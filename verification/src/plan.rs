//! Planning the releases: which commits belong to which package, what the
//! next version of each package is, and which dependents follow.
//!
//! The caller reads the tags, resolves them to commits and walks the log;
//! everything decided from those facts is here.
use vstd::prelude::*;

use crate::commit::{cviews, filter_reverted_commits, filter_reverted_spec, CommitView, ConventionalCommit};
use crate::commit::BumpLevel;
use crate::config::branch::BranchContext;
use crate::config::{glob_match, glob_match_of, Config};
use crate::run::{branch_keeps, filter_keeps};
use crate::git::{latest_of, TagEntry, TagIndex};
use crate::matcher::opt_view;
use crate::package::{owner_index, owner_of, Package};
use crate::text::{str_eq, views};
use crate::version::{
    classify_bump, classify_spec, calculate_next_version, ctx_prerelease, in_range, lemma_keys_views,
    max_version, next_version_ok, next_version_room, next_version_spec, propagate_to_dependents, propagation_ok,
    propagation_spec, release_names, res_parts, version_in_maintenance_range, version_max,
    view_key, added_matches, semver_precedence_of, version_text, AddedView, PackageRelease, Version, VersionError, VersionParts,
};

verus! {

/// What a package's tags give the planning: the version to start from and
/// where its unreleased commits stop.
#[derive(Debug)]
pub struct PkgTagInfo {
    /// The version the next one is computed from.
    pub current_version: Version,
    /// The commit at which walking stops (the tag's, or the manifest's
    /// introduction for a first release).
    pub cutoff_oid: Option<String>,
    pub cutoff_tag: Option<String>,
    /// Whether the cutoff commit itself belongs to the package's commits
    /// (first releases).
    pub cutoff_inclusive: bool,
}

/// Which tag a package's commits are counted from.
#[derive(Debug)]
pub struct TagChoice {
    pub current_version: Version,
    pub cutoff_tag: Option<String>,
    pub cutoff_inclusive: bool,
}

/// On a prerelease branch the cutoff is the channel's own latest tag, else
/// the latest tag; the version to start from is the higher of the latest and
/// the channel's; with no tag, the manifest's version and an inclusive cutoff.
pub open spec fn choice_spec(entries: Seq<TagEntry>, pkg: Package, prerelease: Option<Seq<char>>) -> (VersionParts, Option<Seq<char>>, bool) {
    let latest = latest_of(entries, pkg.name@, None);
    let channel = match prerelease {
        Some(ch) => latest_of(entries, pkg.name@, Some(ch)),
        None => None,
    };
    match (latest, channel) {
        (Some(l), Some(c)) => (max_version(l.version, c.version).parts(), Some(c.tag@), false),
        (None, Some(c)) => (c.version.parts(), Some(c.tag@), false),
        (Some(l), None) => (l.version.parts(), Some(l.tag@), false),
        (None, None) => (pkg.version.parts(), None, true),
    }
}

/// The version a package starts from is never below a tag of the package:
/// not below its latest tag, not below its latest tag on the branch's
/// channel, and so not below any of its tags that count on the branch.
pub proof fn law_choice_not_below_tags(entries: Seq<TagEntry>, pkg: Package, prerelease: Option<Seq<char>>)
    ensures
        latest_of(entries, pkg.name@, None) matches Some(l) ==> semver_precedence_of(
            choice_spec(entries, pkg, prerelease).0,
            l.version.parts(),
        ) != -1,
        match prerelease {
            Some(ch) => match latest_of(entries, pkg.name@, Some(ch)) {
                Some(c) => semver_precedence_of(choice_spec(entries, pkg, prerelease).0, c.version.parts()) != -1,
                None => true,
            },
            None => true,
        },
        forall|i: int|
            0 <= i < entries.len() && (#[trigger] entries[i]).package@ == pkg.name@ ==> semver_precedence_of(
                entries[i].version.parts(),
                choice_spec(entries, pkg, prerelease).0,
            ) != 1,
{
    let cur = choice_spec(entries, pkg, prerelease).0;
    crate::git::law_latest_is_highest(entries, pkg.name@, None);
    let latest = latest_of(entries, pkg.name@, None);
    let channel = match prerelease {
        Some(ch) => latest_of(entries, pkg.name@, Some(ch)),
        None => None,
    };
    if let Some(ch) = prerelease {
        crate::git::law_latest_is_highest(entries, pkg.name@, Some(ch));
    }
    match (latest, channel) {
        (Some(l), Some(c)) => {
            crate::order::law_version_order(l.version.parts(), c.version.parts(), cur);
        },
        (Some(l), None) => {
            crate::order::law_version_order(l.version.parts(), l.version.parts(), cur);
        },
        (None, Some(c)) => {
            crate::order::law_version_order(c.version.parts(), c.version.parts(), cur);
        },
        (None, None) => {},
    }
    assert forall|i: int|
        0 <= i < entries.len() && (#[trigger] entries[i]).package@ == pkg.name@ implies semver_precedence_of(
            entries[i].version.parts(),
            cur,
        ) != 1 by {
        assert(crate::git::counts_for(entries[i], pkg.name@, None));
        let l = latest->0;
        crate::order::law_version_order(entries[i].version.parts(), l.version.parts(), cur);
    }
}

/// Chooses the tag a package's commits are counted from.
pub fn choose_tag(index: &TagIndex, pkg: &Package, ctx: &BranchContext) -> (res: TagChoice)
    requires
        index.wf(),
        pkg.version.wf(),
    ensures
        (res.current_version.parts(), opt_view(res.cutoff_tag), res.cutoff_inclusive) == choice_spec(
            index.entries@,
            *pkg,
            ctx_prerelease(*ctx),
        ),
        res.current_version.wf(),
{
    let latest = index.latest_version(pkg.name.as_str());
    let channel = match &ctx.prerelease {
        Some(ch) => index.latest_channel_version(pkg.name.as_str(), ch.as_str()),
        None => None,
    };
    proof {
        crate::git::lemma_latest_wf(index.entries@, pkg.name@, None);
        if let Some(ch) = ctx_prerelease(*ctx) {
            crate::git::lemma_latest_wf(index.entries@, pkg.name@, Some(ch));
        }
    }
    match (latest, channel) {
        (Some(l), Some(c)) => TagChoice {
            current_version: version_max(&l.version, &c.version),
            cutoff_tag: Some(c.tag),
            cutoff_inclusive: false,
        },
        (None, Some(c)) => TagChoice { current_version: c.version, cutoff_tag: Some(c.tag), cutoff_inclusive: false },
        (Some(l), None) => TagChoice { current_version: l.version, cutoff_tag: Some(l.tag), cutoff_inclusive: false },
        (None, None) => TagChoice { current_version: pkg.version.clone(), cutoff_tag: None, cutoff_inclusive: true },
    }
}

/// The first of the tags with the earliest commit time, among those with a
/// tag and a known time.
pub open spec fn oldest_upto(tags: Seq<Option<String>>, times: Seq<Option<i64>>, k: int) -> Option<(int, i64)>
    decreases k,
{
    if k <= 0 {
        None
    } else {
        let rest = oldest_upto(tags, times, k - 1);
        let i = k - 1;
        if tags[i] is Some && i < times.len() && times[i] is Some {
            let t = times[i].unwrap();
            match rest {
                None => Some((i, t)),
                Some((j, tj)) => if t < tj {
                    Some((i, t))
                } else {
                    Some((j, tj))
                },
            }
        } else {
            rest
        }
    }
}

/// The tag the commit walk can stop at: when every package has a tag, the one
/// whose commit is oldest; otherwise none (the whole history is walked).
pub open spec fn boundary_spec(tags: Seq<Option<String>>, times: Seq<Option<i64>>) -> Option<Seq<char>> {
    if forall|i: int| 0 <= i < tags.len() ==> (#[trigger] tags[i]) is Some {
        match oldest_upto(tags, times, tags.len() as int) {
            Some((i, _)) => opt_view(tags[i]),
            None => None,
        }
    } else {
        None
    }
}

/// The tag the commit walk stops at, from each package's cutoff tag and the
/// commit time of its cutoff (`None` when unknown).
pub fn commit_boundary(tags: &Vec<Option<String>>, times: &Vec<Option<i64>>) -> (res: Option<String>)
    ensures
        opt_view(res) == boundary_spec(tags@, times@),
{
    let mut all = true;
    let mut best: Option<(usize, i64)> = None;
    let mut i: usize = 0;
    while i < tags.len()
        invariant
            i <= tags@.len(),
            all == forall|j: int| 0 <= j < i ==> (#[trigger] tags@[j]) is Some,
            match oldest_upto(tags@, times@, i as int) {
                Some((j, t)) => best == Some((j as usize, t)) && 0 <= j < i,
                None => best is None,
            },
        decreases tags@.len() - i,
    {
        if tags[i].is_none() {
            all = false;
        }
        if tags[i].is_some() && i < times.len() && times[i].is_some() {
            let t = times[i].unwrap();
            best = match best {
                None => Some((i, t)),
                Some((j, tj)) => if t < tj {
                    Some((i, t))
                } else {
                    Some((j, tj))
                },
            };
        }
        i = i + 1;
    }
    if !all {
        return None;
    }
    match best {
        Some((j, _)) => match &tags[j] {
            Some(t) => Some(t.clone()),
            None => None,
        },
        None => None,
    }
}

// ---------------------------------------------------------------------------
// Which commits belong to which package
// ---------------------------------------------------------------------------

/// A file matches one of the `ignore` globs.
pub open spec fn ignored(config: Config, f: Seq<char>) -> bool {
    exists|k: int| 0 <= k < config.ignore@.len() && glob_match_of((#[trigger] config.ignore@[k])@, f)
}

/// The files of a commit that are not ignored, in order.
pub open spec fn relevant(config: Config, files: Seq<Seq<char>>) -> Seq<Seq<char>>
    decreases files.len(),
{
    if files.len() == 0 {
        Seq::empty()
    } else if ignored(config, files.last()) {
        relevant(config, files.drop_last())
    } else {
        relevant(config, files.drop_last()).push(files.last())
    }
}

/// A file matches one of the global `dependencies` globs.
pub open spec fn is_global(config: Config, f: Seq<char>) -> bool {
    exists|k: int| 0 <= k < config.dependencies@.len() && glob_match_of((#[trigger] config.dependencies@[k])@, f)
}

pub open spec fn touches_global(config: Config, files: Seq<Seq<char>>) -> bool {
    exists|j: int| 0 <= j < files.len() && is_global(config, #[trigger] files[j])
}

/// One of the files belongs to a package named `name`.
pub open spec fn owned_by_name(pkgs: Seq<Package>, files: Seq<Seq<char>>, name: Seq<char>) -> bool {
    exists|j: int|
        0 <= j < files.len() && match owner_index(pkgs, #[trigger] files[j]) {
            Some(o) => pkgs[o].name@ == name,
            None => false,
        }
}

/// The number of packages among the first `k` named `name`.
pub open spec fn count_named(pkgs: Seq<Package>, name: Seq<char>, k: int) -> nat
    decreases k,
{
    if k <= 0 {
        0
    } else {
        count_named(pkgs, name, k - 1) + if pkgs[k - 1].name@ == name {
            1nat
        } else {
            0nat
        }
    }
}

/// How many times a commit is recorded for the package name `name`: never
/// when it touches only ignored files; once per package of that name when it
/// touches a global dependency; once when one of its files belongs to a
/// package of that name.
pub open spec fn times(config: Config, pkgs: Seq<Package>, c: CommitView, name: Seq<char>) -> nat {
    let rel = relevant(config, c.files_changed);
    if rel.len() == 0 {
        0
    } else if touches_global(config, rel) {
        count_named(pkgs, name, pkgs.len() as int)
    } else if owned_by_name(pkgs, rel, name) {
        1
    } else {
        0
    }
}

/// The indices of the commits recorded for `name`, in log order.
pub open spec fn indices_for(config: Config, pkgs: Seq<Package>, commits: Seq<CommitView>, name: Seq<char>, k: int) -> Seq<int>
    decreases k,
{
    if k <= 0 {
        Seq::empty()
    } else {
        indices_for(config, pkgs, commits, name, k - 1) + Seq::new(
            times(config, pkgs, commits[k - 1], name),
            |j: int| k - 1,
        )
    }
}

/// The last commit with the given full id.
pub open spec fn last_oid_index(commits: Seq<CommitView>, oid: Seq<char>) -> Option<int>
    decreases commits.len(),
{
    if commits.len() == 0 {
        None
    } else if commits.last().oid == Some(oid) {
        Some(commits.len() - 1)
    } else {
        last_oid_index(commits.drop_last(), oid)
    }
}

/// The indices before the cutoff commit (up to and including it when
/// `inclusive`); all of them when the cutoff is not in the log.
pub open spec fn within_cutoff(idxs: Seq<int>, cut: Option<int>, inclusive: bool) -> Seq<int>
    decreases idxs.len(),
{
    if idxs.len() == 0 {
        Seq::empty()
    } else {
        let rest = within_cutoff(idxs.drop_last(), cut, inclusive);
        let i = idxs.last();
        let keep = match cut {
            Some(c) => if inclusive {
                i <= c
            } else {
                i < c
            },
            None => true,
        };
        if keep {
            rest.push(i)
        } else {
            rest
        }
    }
}

/// A commit without its file list.
pub open spec fn cleared(c: CommitView) -> CommitView {
    CommitView { files_changed: Seq::empty(), ..c }
}

/// The commits of package `p` that go into its release: those recorded for
/// its name within its cutoff, without reverted pairs.
pub open spec fn package_commits(config: Config, pkgs: Seq<Package>, commits: Seq<CommitView>, p: int, cutoff_oid: Option<Seq<char>>, inclusive: bool) -> Seq<CommitView> {
    let cut = match cutoff_oid {
        Some(o) => last_oid_index(commits, o),
        None => None,
    };
    filter_reverted_spec(
        within_cutoff(indices_for(config, pkgs, commits, pkgs[p].name@, commits.len() as int), cut, inclusive).map_values(
            |i: int| cleared(commits[i]),
        ),
    )
}

/// Why no plan could be made.
#[derive(Debug, Clone, PartialEq, Eq)]
pub enum PlanError {
    /// A next version could not be computed.
    Version(VersionError),
    /// The next stable version of a package already exists as a tag, released
    /// on another branch: the package and the version.
    Collision(String, String),
    /// A planned prerelease of a package the branch releases already exists
    /// as a tag that is not reachable from HEAD (left behind by a rebase or a
    /// force-push): the package and the version.
    StaleChannelTag(String, String),
}

/// A plan error as plain values.
pub enum PlanFault {
    Version(VersionError),
    Collision(Seq<char>, Seq<char>),
    StaleChannelTag(Seq<char>, Seq<char>),
}

/// The plain values of a plan error.
pub open spec fn fault(e: PlanError) -> PlanFault {
    match e {
        PlanError::Version(v) => PlanFault::Version(v),
        PlanError::Collision(n, v) => PlanFault::Collision(n@, v@),
        PlanError::StaleChannelTag(n, v) => PlanFault::StaleChannelTag(n@, v@),
    }
}

/// What a direct release records: name, current and next version, bump, its
/// commits and whether it is the root package.
pub type DirectView = (Seq<char>, VersionParts, VersionParts, BumpLevel, Seq<CommitView>, bool);

/// The outcome for package `p`: skipped outside a maintenance range or
/// without commits, no release when the version does not move or the move is
/// no bump, an error when the next stable version already exists as a tag.
pub open spec fn outcome(config: Config, pkgs: Seq<Package>, commits: Seq<CommitView>, infos: Seq<PkgTagInfo>, index: TagIndex, ctx: BranchContext, p: int) -> Result<Option<DirectView>, PlanFault> {
    let info = infos[p];
    let cur = info.current_version;
    if ctx.maintenance && ctx.maintenance_range is Some && !in_range(cur, ctx.maintenance_range.unwrap()) {
        Ok(None)
    } else {
        let pc = package_commits(config, pkgs, commits, p, opt_view(info.cutoff_oid), info.cutoff_inclusive);
        if pc.len() == 0 {
            Ok(None)
        } else {
            match next_version_spec(
                cur.parts(),
                pc.map_values(|c: CommitView| view_key(c)),
                ctx_prerelease(ctx),
                ctx.maintenance,
                ctx.maintenance_range,
            ) {
                Err(e) => Err(PlanFault::Version(e)),
                Ok(next) => if next == cur.parts() {
                    Ok(None)
                } else if next.3.len() == 0 && index.exists_spec(pkgs[p].name@, next) {
                    Err(PlanFault::Collision(pkgs[p].name@, version_text(next)))
                } else {
                    let bump = classify_spec(cur.parts(), next);
                    if bump != BumpLevel::NoBump {
                        Ok(Some((pkgs[p].name@, cur.parts(), next, bump, pc, pkgs[p].is_root)))
                    } else {
                        Ok(None)
                    }
                },
            }
        }
    }
}

/// The direct releases of the first `k` packages, or the first error.
pub open spec fn direct_upto(config: Config, pkgs: Seq<Package>, commits: Seq<CommitView>, infos: Seq<PkgTagInfo>, index: TagIndex, ctx: BranchContext, k: int) -> Result<Seq<DirectView>, PlanFault>
    decreases k,
{
    if k <= 0 {
        Ok(Seq::empty())
    } else {
        match direct_upto(config, pkgs, commits, infos, index, ctx, k - 1) {
            Err(e) => Err(e),
            Ok(rs) => match outcome(config, pkgs, commits, infos, index, ctx, k - 1) {
                Err(e) => Err(e),
                Ok(None) => Ok(rs),
                Ok(Some(r)) => Ok(rs.push(r)),
            },
        }
    }
}

pub open spec fn direct_matches(r: PackageRelease, d: DirectView) -> bool {
    &&& r.package_name@ == d.0
    &&& r.current_version.parts() == d.1
    &&& r.next_version.parts() == d.2
    &&& r.bump == d.3
    &&& cviews(r.commits@) == d.4
    &&& r.is_root == d.5
    &&& r.propagated_from is None
    &&& r.next_version.wf()
}

/// Whether a file matches one of the globs.
fn matches_any(patterns: &Vec<String>, f: &str) -> (res: bool)
    ensures
        res == exists|k: int| 0 <= k < patterns@.len() && glob_match_of((#[trigger] patterns@[k])@, f@),
{
    let mut k: usize = 0;
    while k < patterns.len()
        invariant
            k <= patterns@.len(),
            forall|q: int| 0 <= q < k ==> !glob_match_of((#[trigger] patterns@[q])@, f@),
        decreases patterns@.len() - k,
    {
        if glob_match(patterns[k].as_str(), f) {
            return true;
        }
        k = k + 1;
    }
    false
}

/// The files of a commit that are not ignored.
pub fn relevant_files(config: &Config, files: &Vec<String>) -> (res: Vec<String>)
    ensures
        views(res@) == relevant(*config, views(files@)),
{
    let mut out: Vec<String> = Vec::new();
    let mut i: usize = 0;
    while i < files.len()
        invariant
            i <= files@.len(),
            views(out@) == relevant(*config, views(files@).take(i as int)),
        decreases files@.len() - i,
    {
        assert(views(files@).take((i + 1) as int).drop_last() =~= views(files@).take(i as int));
        assert(views(files@).take((i + 1) as int).last() == files@[i as int]@);
        if !matches_any(&config.ignore, files[i].as_str()) {
            let ghost o0 = out@;
            out.push(files[i].clone());
            assert(views(out@) =~= views(o0).push(files@[i as int]@));
        }
        i = i + 1;
    }
    assert(views(files@).take(files@.len() as int) =~= views(files@));
    out
}

/// How a commit is routed to packages.
pub struct CommitRoute {
    pub relevant_count: usize,
    pub global: bool,
    /// The package each relevant file belongs to.
    pub owners: Vec<Option<usize>>,
}

/// `slot` records the package file `f` belongs to.
pub open spec fn owner_slot(pkgs: Seq<Package>, f: Seq<char>, slot: Option<usize>) -> bool {
    match owner_index(pkgs, f) {
        Some(o) => 0 <= o < pkgs.len() && slot == Some(o as usize),
        None => slot is None,
    }
}

pub open spec fn route_ok(config: Config, pkgs: Seq<Package>, c: CommitView, r: CommitRoute) -> bool {
    let rel = relevant(config, c.files_changed);
    &&& r.relevant_count == rel.len()
    &&& r.global == touches_global(config, rel)
    &&& r.owners@.len() == rel.len()
    &&& forall|j: int| 0 <= j < rel.len() ==> owner_slot(pkgs, rel[j], #[trigger] r.owners@[j])
}

/// How commit `c` is routed to packages.
pub fn route_commit(config: &Config, packages: &[Package], c: &ConventionalCommit) -> (res: CommitRoute)
    ensures
        route_ok(*config, packages@, c@, res),
        forall|j: int| 0 <= j < res.owners@.len() ==> ((#[trigger] res.owners@[j]) matches Some(o) ==> o < packages@.len()),
{
    let rel = relevant_files(config, &c.files_changed);
    let ghost rv = views(rel@);
    let mut global = false;
    let mut owners: Vec<Option<usize>> = Vec::new();
    let mut j: usize = 0;
    while j < rel.len()
        invariant
            j <= rel@.len(),
            rv == views(rel@),
            global == exists|q: int| 0 <= q < j && is_global(*config, #[trigger] rv[q]),
            owners@.len() == j,
            forall|q: int| 0 <= q < j ==> owner_slot(packages@, rv[q], #[trigger] owners@[q]),
        decreases rel@.len() - j,
    {
        assert(rv[j as int] == rel@[j as int]@);
        if matches_any(&config.dependencies, rel[j].as_str()) {
            global = true;
        }
        let o = owner_of(rel[j].as_str(), packages);
        let ghost o0 = owners@;
        owners.push(o);
        assert(owners@[j as int] == o);
        assert(forall|q: int| 0 <= q < j ==> owners@[q] == o0[q]);
        j = j + 1;
    }
    assert forall|q: int| 0 <= q < owners@.len() implies ((#[trigger] owners@[q]) matches Some(o) ==> o < packages@.len()) by {
        assert(owner_slot(packages@, rv[q], owners@[q]));
    }
    CommitRoute { relevant_count: rel.len(), global, owners }
}

/// How many times a routed commit is recorded for package name `name`.
fn route_times(packages: &[Package], r: &CommitRoute, name: &str, Ghost(config): Ghost<Config>, Ghost(c): Ghost<CommitView>) -> (res: usize)
    requires
        route_ok(config, packages@, c, *r),
        forall|j: int| 0 <= j < r.owners@.len() ==> ((#[trigger] r.owners@[j]) matches Some(o) ==> o < packages@.len()),
    ensures
        res == times(config, packages@, c, name@),
{
    let ghost rel = relevant(config, c.files_changed);
    if r.relevant_count == 0 {
        return 0;
    }
    if r.global {
        let mut n: usize = 0;
        let mut k: usize = 0;
        while k < packages.len()
            invariant
                k <= packages@.len(),
                n == count_named(packages@, name@, k as int),
                n <= k,
            decreases packages@.len() - k,
        {
            if str_eq(packages[k].name.as_str(), name) {
                n = n + 1;
            }
            k = k + 1;
        }
        return n;
    }
    let mut j: usize = 0;
    while j < r.owners.len()
        invariant
            j <= r.owners@.len(),
            r.relevant_count > 0,
            !r.global,
            route_ok(config, packages@, c, *r),
            rel == relevant(config, c.files_changed),
            forall|q: int| 0 <= q < r.owners@.len() ==> ((#[trigger] r.owners@[q]) matches Some(o) ==> o < packages@.len()),
            forall|q: int|
                0 <= q < j ==> !(match owner_index(packages@, #[trigger] rel[q]) {
                    Some(o) => packages@[o].name@ == name@,
                    None => false,
                }),
        decreases r.owners@.len() - j,
    {
        assert(owner_slot(packages@, rel[j as int], r.owners@[j as int]));
        match r.owners[j] {
            Some(o) => {
                assert(r.owners@[j as int] == Some(o));
                if str_eq(packages[o].name.as_str(), name) {
                    assert(owned_by_name(packages@, rel, name@)) by {
                        assert(match owner_index(packages@, rel[j as int]) {
                            Some(o) => packages@[o].name@ == name@,
                            None => false,
                        });
                    }
                    return 1;
                }
            },
            None => {},
        }
        j = j + 1;
    }
    0
}

pub open spec fn routes_ok(config: Config, pkgs: Seq<Package>, commits: Seq<CommitView>, routes: Seq<CommitRoute>) -> bool {
    &&& routes.len() == commits.len()
    &&& forall|i: int| 0 <= i < routes.len() ==> route_ok(config, pkgs, commits[i], #[trigger] routes[i])
    &&& forall|i: int, j: int|
        0 <= i < routes.len() && 0 <= j < routes[i].owners@.len() ==> ((#[trigger] routes[i].owners@[j]) matches Some(o)
            ==> o < pkgs.len())
}

/// The routes of every commit.
pub fn route_commits(config: &Config, packages: &[Package], commits: &Vec<ConventionalCommit>) -> (res: Vec<CommitRoute>)
    ensures
        routes_ok(*config, packages@, cviews(commits@), res@),
{
    let mut routes: Vec<CommitRoute> = Vec::new();
    let mut i: usize = 0;
    while i < commits.len()
        invariant
            i <= commits@.len(),
            routes@.len() == i,
            forall|q: int| 0 <= q < i ==> route_ok(*config, packages@, commits@[q]@, #[trigger] routes@[q]),
            forall|q: int, j: int|
                0 <= q < i && 0 <= j < routes@[q].owners@.len() ==> ((#[trigger] routes@[q].owners@[j]) matches Some(o)
                    ==> o < packages@.len()),
        decreases commits@.len() - i,
    {
        let r = route_commit(config, packages, &commits[i]);
        routes.push(r);
        i = i + 1;
    }
    routes
}

/// The indices of the commits recorded for package name `name`.
fn indices_exec(packages: &[Package], routes: &Vec<CommitRoute>, name: &str, Ghost(config): Ghost<Config>, Ghost(commits): Ghost<Seq<CommitView>>) -> (res: Vec<usize>)
    requires
        routes_ok(config, packages@, commits, routes@),
    ensures
        res@.map_values(|x: usize| x as int) == indices_for(config, packages@, commits, name@, commits.len() as int),
        forall|j: int| 0 <= j < res@.len() ==> (#[trigger] res@[j]) < commits.len(),
{
    let mut out: Vec<usize> = Vec::new();
    let mut i: usize = 0;
    while i < routes.len()
        invariant
            i <= routes@.len(),
            routes_ok(config, packages@, commits, routes@),
            out@.map_values(|x: usize| x as int) == indices_for(config, packages@, commits, name@, i as int),
            forall|j: int| 0 <= j < out@.len() ==> (#[trigger] out@[j]) < i,
        decreases routes@.len() - i,
    {
        assert(route_ok(config, packages@, commits[i as int], routes@[i as int]));
        assert forall|j: int| 0 <= j < routes@[i as int].owners@.len() implies ((#[trigger] routes@[i as int].owners@[j]) matches Some(o) ==> o < packages@.len()) by {}
        let t = route_times(packages, &routes[i], name, Ghost(config), Ghost(commits[i as int]));
        let ghost base = out@.map_values(|x: usize| x as int);
        let mut m: usize = 0;
        while m < t
            invariant
                m <= t,
                i < routes@.len(),
                out@.map_values(|x: usize| x as int) == base + Seq::new(m as nat, |j: int| i as int),
                forall|j: int| 0 <= j < out@.len() ==> (#[trigger] out@[j]) < i + 1,
            decreases t - m,
        {
            let ghost o0 = out@;
            out.push(i);
            assert(out@.map_values(|x: usize| x as int) =~= o0.map_values(|x: usize| x as int).push(i as int));
            assert(base + Seq::new((m + 1) as nat, |j: int| i as int) =~= (base + Seq::new(m as nat, |j: int| i as int)).push(i as int));
            m = m + 1;
        }
        i = i + 1;
    }
    out
}

/// The last commit with the given full id.
fn cutoff_index(commits: &Vec<ConventionalCommit>, oid: &str) -> (res: Option<usize>)
    ensures
        match res {
            Some(k) => last_oid_index(cviews(commits@), oid@) == Some(k as int),
            None => last_oid_index(cviews(commits@), oid@) is None,
        },
{
    let ghost cv = cviews(commits@);
    let mut i: usize = commits.len();
    assert(cv.take(i as int) =~= cv);
    while i > 0
        invariant
            i <= commits@.len(),
            cv == cviews(commits@),
            last_oid_index(cv, oid@) == last_oid_index(cv.take(i as int), oid@),
        decreases i,
    {
        let ghost t = cv.take(i as int);
        assert(t.last() == commits@[i - 1]@);
        let hit = match &commits[i - 1].oid {
            Some(o) => str_eq(o.as_str(), oid),
            None => false,
        };
        if hit {
            return Some(i - 1);
        }
        assert(t.drop_last() =~= cv.take(i - 1));
        i = i - 1;
    }
    None
}

/// The indices kept by the cutoff.
fn apply_cutoff(idxs: &Vec<usize>, cut: Option<usize>, inclusive: bool) -> (res: Vec<usize>)
    ensures
        res@.map_values(|x: usize| x as int) == within_cutoff(
            idxs@.map_values(|x: usize| x as int),
            match cut {
                Some(c) => Some(c as int),
                None => None,
            },
            inclusive,
        ),
        forall|j: int| 0 <= j < res@.len() ==> exists|k: int| 0 <= k < idxs@.len() && #[trigger] res@[j] == idxs@[k],
{
    let ghost iv = idxs@.map_values(|x: usize| x as int);
    let ghost c = match cut {
        Some(c) => Some(c as int),
        None => None,
    };
    let mut out: Vec<usize> = Vec::new();
    let mut i: usize = 0;
    while i < idxs.len()
        invariant
            i <= idxs@.len(),
            iv == idxs@.map_values(|x: usize| x as int),
            c == match cut {
                Some(c) => Some(c as int),
                None => None::<int>,
            },
            out@.map_values(|x: usize| x as int) == within_cutoff(iv.take(i as int), c, inclusive),
            forall|j: int| 0 <= j < out@.len() ==> exists|k: int| 0 <= k < i && #[trigger] out@[j] == idxs@[k],
        decreases idxs@.len() - i,
    {
        assert(iv.take((i + 1) as int).drop_last() =~= iv.take(i as int));
        assert(iv.take((i + 1) as int).last() == idxs@[i as int] as int);
        let x = idxs[i];
        let keep = match cut {
            Some(cv) => if inclusive {
                x <= cv
            } else {
                x < cv
            },
            None => true,
        };
        if keep {
            let ghost o0 = out@;
            out.push(x);
            assert(out@.map_values(|y: usize| y as int) =~= o0.map_values(|y: usize| y as int).push(x as int));
            assert(out@[out@.len() - 1] == idxs@[i as int]);
        }
        i = i + 1;
    }
    assert(iv.take(idxs@.len() as int) =~= iv);
    out
}

/// Copies of the commits at the given indices, without their file lists.
fn pick_commits(commits: &Vec<ConventionalCommit>, idxs: &Vec<usize>) -> (res: Vec<ConventionalCommit>)
    requires
        forall|j: int| 0 <= j < idxs@.len() ==> (#[trigger] idxs@[j]) < commits@.len(),
    ensures
        cviews(res@) == idxs@.map_values(|x: usize| x as int).map_values(|i: int| cleared(cviews(commits@)[i])),
{
    let ghost target = idxs@.map_values(|x: usize| x as int).map_values(|i: int| cleared(cviews(commits@)[i]));
    let mut out: Vec<ConventionalCommit> = Vec::new();
    let mut j: usize = 0;
    while j < idxs.len()
        invariant
            j <= idxs@.len(),
            forall|q: int| 0 <= q < idxs@.len() ==> (#[trigger] idxs@[q]) < commits@.len(),
            target == idxs@.map_values(|x: usize| x as int).map_values(|i: int| cleared(cviews(commits@)[i])),
            cviews(out@) == target.take(j as int),
        decreases idxs@.len() - j,
    {
        let mut c = commits[idxs[j]].clone();
        c.files_changed = Vec::new();
        let ghost o0 = out@;
        out.push(c);
        assert(cviews(commits@)[idxs@[j as int] as int] == commits@[idxs@[j as int] as int]@);
        assert(c@ == cleared(commits@[idxs@[j as int] as int]@)) by {
            assert(views(c.files_changed@) =~= Seq::<Seq<char>>::empty());
        }
        assert(cviews(out@) =~= cviews(o0).push(c@));
        assert(target[j as int] == cleared(cviews(commits@)[idxs@[j as int] as int]));
        assert(target.take((j + 1) as int) =~= target.take(j as int).push(target[j as int]));
        assert(cviews(out@) =~= target.take((j + 1) as int));
        j = j + 1;
    }
    assert(target.take(idxs@.len() as int) =~= target);
    out
}

pub open spec fn currents(infos: Seq<PkgTagInfo>) -> Seq<Version> {
    infos.map_values(|i: PkgTagInfo| i.current_version)
}

/// What planning needs of the packages' starting versions.
pub open spec fn plan_ok(pkgs: Seq<Package>, infos: Seq<PkgTagInfo>, ctx: BranchContext) -> bool {
    &&& infos.len() == pkgs.len()
    &&& forall|i: int| 0 <= i < infos.len() ==> (#[trigger] infos[i]).current_version.wf() && next_version_ok(infos[i].current_version, ctx)
}

/// Whether a plan can be made for these packages and their tag facts: one
/// fact per package, each version well formed with room for its next one.
pub fn plan_ready(packages: &[Package], infos: &Vec<PkgTagInfo>, ctx: &BranchContext) -> (res: bool)
    ensures
        res == plan_ok(packages@, infos@, *ctx),
{
    if infos.len() != packages.len() {
        return false;
    }
    let mut i: usize = 0;
    while i < infos.len()
        invariant
            i <= infos@.len(),
            infos@.len() == packages@.len(),
            forall|j: int| 0 <= j < i ==> (#[trigger] infos@[j]).current_version.wf() && next_version_ok(infos@[j].current_version, *ctx),
        decreases infos@.len() - i,
    {
        let cur = &infos[i].current_version;
        if !(cur.is_wf() && next_version_room(cur, ctx)) {
            assert(!(infos@[i as int].current_version.wf() && next_version_ok(infos@[i as int].current_version, *ctx)));
            return false;
        }
        i = i + 1;
    }
    true
}

/// The outcome for package `p` on the executable state.
#[verifier::rlimit(40)]
fn package_outcome(
    packages: &[Package],
    infos: &Vec<PkgTagInfo>,
    commits: &Vec<ConventionalCommit>,
    routes: &Vec<CommitRoute>,
    config: &Config,
    ctx: &BranchContext,
    index: &TagIndex,
    p: usize,
) -> (res: Result<Option<PackageRelease>, PlanError>)
    requires
        plan_ok(packages@, infos@, *ctx),
        routes_ok(*config, packages@, cviews(commits@), routes@),
        p < packages@.len(),
    ensures
        match outcome(*config, packages@, cviews(commits@), infos@, *index, *ctx, p as int) {
            Err(e) => res matches Err(x) && fault(x) == e,
            Ok(None) => res matches Ok(None),
            Ok(Some(d)) => res matches Ok(Some(r)) && direct_matches(r, d),
        },
{
    let ghost cv = cviews(commits@);
    let info = &infos[p];
    let cur = &info.current_version;
    assert(cur.wf() && next_version_ok(*cur, *ctx));
    match &ctx.maintenance_range {
        Some(range) => {
            if ctx.maintenance && !version_in_maintenance_range(cur, range) {
                return Ok(None);
            }
        },
        None => {},
    }
    let name = packages[p].name.as_str();
    let idxs = indices_exec(packages, routes, name, Ghost(*config), Ghost(cv));
    let cut = match &info.cutoff_oid {
        Some(o) => cutoff_index(commits, o.as_str()),
        None => None,
    };
    let kept = apply_cutoff(&idxs, cut, info.cutoff_inclusive);
    assert forall|j: int| 0 <= j < kept@.len() implies (#[trigger] kept@[j]) < commits@.len() by {
        let k = choose|k: int| 0 <= k < idxs@.len() && kept@[j] == idxs@[k];
        assert(idxs@[k] < cv.len());
    }
    let picked = pick_commits(commits, &kept);
    let pc = filter_reverted_commits(picked);
    let ghost pcv = package_commits(*config, packages@, cv, p as int, opt_view(info.cutoff_oid), info.cutoff_inclusive);
    assert(cviews(pc@) == pcv);
    if pc.len() == 0 {
        return Ok(None);
    }
    proof {
        lemma_keys_views(pc@);
    }
    let next = match calculate_next_version(cur, &pc, ctx) {
        Ok(v) => v,
        Err(e) => {
            return Err(PlanError::Version(e));
        },
    };
    if next.equals(cur) {
        return Ok(None);
    }
    if !next.is_prerelease() && index.version_exists(name, &next) {
        return Err(PlanError::Collision(packages[p].name.clone(), next.to_string()));
    }
    let bump = classify_bump(cur, &next);
    if bump != BumpLevel::NoBump {
        Ok(
            Some(
                PackageRelease {
                    package_name: packages[p].name.clone(),
                    current_version: cur.clone(),
                    next_version: next,
                    bump,
                    commits: pc,
                    is_root: packages[p].is_root,
                    propagated_from: None,
                },
            ),
        )
    } else {
        Ok(None)
    }
}

/// The direct releases, package by package.
fn direct_releases(
    packages: &[Package],
    infos: &Vec<PkgTagInfo>,
    commits: &Vec<ConventionalCommit>,
    routes: &Vec<CommitRoute>,
    config: &Config,
    ctx: &BranchContext,
    index: &TagIndex,
) -> (res: Result<Vec<PackageRelease>, PlanError>)
    requires
        plan_ok(packages@, infos@, *ctx),
        routes_ok(*config, packages@, cviews(commits@), routes@),
    ensures
        match direct_upto(*config, packages@, cviews(commits@), infos@, *index, *ctx, packages@.len() as int) {
            Err(e) => res matches Err(x) && fault(x) == e,
            Ok(ds) => res matches Ok(rs) && rs@.len() == ds.len() && forall|j: int|
                0 <= j < ds.len() ==> direct_matches(#[trigger] rs@[j], ds[j]),
        },
{
    let mut out: Vec<PackageRelease> = Vec::new();
    let mut p: usize = 0;
    while p < packages.len()
        invariant
            p <= packages@.len(),
            plan_ok(packages@, infos@, *ctx),
            routes_ok(*config, packages@, cviews(commits@), routes@),
            direct_upto(*config, packages@, cviews(commits@), infos@, *index, *ctx, p as int) matches Ok(ds)
                && out@.len() == ds.len() && forall|j: int| 0 <= j < ds.len() ==> direct_matches(#[trigger] out@[j], ds[j]),
        decreases packages@.len() - p,
    {
        let o = package_outcome(packages, infos, commits, routes, config, ctx, index, p);
        match o {
            Err(e) => {
                proof {
                    lemma_direct_err(*config, packages@, cviews(commits@), infos@, *index, *ctx, (p + 1) as int, packages@.len() as int);
                }
                return Err(e);
            },
            Ok(None) => {},
            Ok(Some(r)) => {
                let ghost o0 = out@;
                out.push(r);
                assert forall|j: int| 0 <= j < o0.len() implies out@[j] == o0[j] by {}
            },
        }
        p = p + 1;
    }
    Ok(out)
}

proof fn lemma_direct_err(config: Config, pkgs: Seq<Package>, commits: Seq<CommitView>, infos: Seq<PkgTagInfo>, index: TagIndex, ctx: BranchContext, k: int, m: int)
    requires
        0 <= k <= m,
        direct_upto(config, pkgs, commits, infos, index, ctx, k) is Err,
    ensures
        direct_upto(config, pkgs, commits, infos, index, ctx, m) == direct_upto(config, pkgs, commits, infos, index, ctx, k),
    decreases m,
{
    if m > k {
        lemma_direct_err(config, pkgs, commits, infos, index, ctx, k, m - 1);
    }
}

pub open spec fn direct_names(ds: Seq<DirectView>) -> Seq<Seq<char>> {
    ds.map_values(|d: DirectView| d.0)
}

/// The plan: the direct releases followed by the releases propagated to
/// their dependents.
pub open spec fn plan_matches(config: Config, pkgs: Seq<Package>, commits: Seq<CommitView>, infos: Seq<PkgTagInfo>, index: TagIndex, ctx: BranchContext, res: Result<Vec<PackageRelease>, PlanError>) -> bool {
    match direct_upto(config, pkgs, commits, infos, index, ctx, pkgs.len() as int) {
        Err(e) => res matches Err(x) && fault(x) == e,
        Ok(ds) => {
            let prop = propagation_spec(pkgs, currents(infos), index, ctx, direct_names(ds));
            let planned = planned_of(ds, prop.added);
            match prop.err {
                Some(e) => res == Err::<Vec<PackageRelease>, PlanError>(PlanError::Version(e)),
                None => if exists|k: int| 0 <= k < planned.len() && #[trigger] stale_at(index, ctx, planned[k]) {
                    res matches Err(PlanError::StaleChannelTag(n, v)) && exists|k: int|
                        0 <= k < planned.len() && #[trigger] stale_at(index, ctx, planned[k]) && (forall|j: int|
                            0 <= j < k ==> !stale_at(index, ctx, #[trigger] planned[j])) && n@ == planned[k].0 && v@
                            == version_text(planned[k].1)
                } else {
                    res matches Ok(rs) && rs@.len() == ds.len() + prop.added.len() && (forall|j: int|
                        0 <= j < ds.len() ==> direct_matches(#[trigger] rs@[j], ds[j])) && (forall|j: int|
                        0 <= j < prop.added.len() ==> added_matches(#[trigger] rs@[ds.len() + j], prop.added[j]))
                },
            }
        },
    }
}

/// The planned releases as (package, next version): the direct ones, then
/// the propagated ones.
pub open spec fn planned_of(ds: Seq<DirectView>, added: Seq<AddedView>) -> Seq<(Seq<char>, VersionParts)> {
    ds.map_values(|d: DirectView| (d.0, d.2)) + added.map_values(|a: AddedView| (a.0, a.2))
}

/// A planned prerelease of a package the branch releases already exists as
/// a tag on the branch's channel that is not reachable from HEAD.
pub open spec fn stale_at(index: TagIndex, ctx: BranchContext, p: (Seq<char>, VersionParts)) -> bool {
    &&& p.1.3.len() > 0
    &&& filter_keeps(ctx.packages@, p.0)
    &&& index.unreachable_spec(p.0, p.1)
}

proof fn lemma_direct_on_channel(config: Config, pkgs: Seq<Package>, commits: Seq<CommitView>, infos: Seq<PkgTagInfo>, index: TagIndex, ctx: BranchContext, k: int, ch: Seq<char>)
    requires
        ctx_prerelease(ctx) == Some(ch),
    ensures
        direct_upto(config, pkgs, commits, infos, index, ctx, k) matches Ok(ds) ==> forall|j: int|
            0 <= j < ds.len() ==> crate::version::matches_channel((#[trigger] ds[j]).2.3, ch),
    decreases k,
{
    if k > 0 {
        lemma_direct_on_channel(config, pkgs, commits, infos, index, ctx, k - 1, ch);
        let info = infos[k - 1];
        let cur = info.current_version.parts();
        let pc = package_commits(config, pkgs, commits, k - 1, opt_view(info.cutoff_oid), info.cutoff_inclusive);
        let ks = pc.map_values(|c: CommitView| view_key(c));
        crate::version::law_prerelease_next_on_channel(cur, crate::version::bumping(ks), ch);
    }
}

/// Plans the releases: for every package its commits since its cutoff (files
/// routed to their package, ignored files dropped, global dependencies
/// affecting every package, reverted pairs removed), the next version they
/// lead to on the branch, then the releases that follow for dependents. On a
/// prerelease branch every planned version is on the branch's channel.
pub fn plan_releases(packages: &[Package], infos: &Vec<PkgTagInfo>, commits: &Vec<ConventionalCommit>, config: &Config, ctx: &BranchContext, index: &TagIndex) -> (res: Result<Vec<PackageRelease>, PlanError>)
    requires
        plan_ok(packages@, infos@, *ctx),
    ensures
        plan_matches(*config, packages@, cviews(commits@), infos@, *index, *ctx, res),
        res matches Ok(rs) ==> (ctx.prerelease matches Some(ch) ==> forall|j: int|
            0 <= j < rs@.len() ==> crate::version::matches_channel((#[trigger] rs@[j]).next_version.pre@, ch@)),
{
    let routes = route_commits(config, packages, commits);
    let mut releases = direct_releases(packages, infos, commits, &routes, config, ctx, index)?;
    let ghost ds = match direct_upto(*config, packages@, cviews(commits@), infos@, *index, *ctx, packages@.len() as int) {
        Ok(d) => d,
        Err(_) => Seq::empty(),
    };
    let mut currents_v: Vec<Version> = Vec::new();
    let mut i: usize = 0;
    while i < infos.len()
        invariant
            i <= infos@.len(),
            currents_v@ == currents(infos@).take(i as int),
        decreases infos@.len() - i,
    {
        currents_v.push(infos[i].current_version.clone());
        i = i + 1;
        assert(currents_v@ =~= currents(infos@).take(i as int));
    }
    assert(currents_v@ =~= currents(infos@));
    assert(release_names(releases@) =~= direct_names(ds));
    let ghost base = releases@;
    match propagate_to_dependents(&mut releases, packages, &currents_v, index, ctx) {
        Ok(()) => {},
        Err(e) => {
            return Err(PlanError::Version(e));
        },
    }
    let ghost prop = propagation_spec(packages@, currents(infos@), *index, *ctx, direct_names(ds));
    assert forall|j: int| 0 <= j < ds.len() implies direct_matches(#[trigger] releases@[j], ds[j]) by {
        assert(releases@[j] == base[j]);
    }
    proof {
        if let Some(ch) = ctx_prerelease(*ctx) {
            lemma_direct_on_channel(*config, packages@, cviews(commits@), infos@, *index, *ctx, packages@.len() as int, ch);
            crate::version::law_propagation_on_channel(packages@, currents(infos@), *index, *ctx, direct_names(ds), ch);
            assert forall|j: int| 0 <= j < releases@.len() implies crate::version::matches_channel(
                (#[trigger] releases@[j]).next_version.pre@,
                ch,
            ) by {
                if j < ds.len() {
                    assert(direct_matches(releases@[j], ds[j]));
                } else {
                    let a = j - ds.len();
                    assert(added_matches(releases@[ds.len() + a], prop.added[a]));
                }
            }
        }
    }
    let ghost planned = planned_of(ds, prop.added);
    assert forall|j: int| 0 <= j < releases@.len() implies (#[trigger] planned[j]) == (
        releases@[j].package_name@,
        releases@[j].next_version.parts(),
    ) by {
        if j < ds.len() {
            assert(direct_matches(releases@[j], ds[j]));
        } else {
            let a = j - ds.len();
            assert(added_matches(releases@[ds.len() + a], prop.added[a]));
        }
    }
    let mut k: usize = 0;
    while k < releases.len()
        invariant
            k <= releases@.len(),
            releases@.len() == planned.len(),
            direct_upto(*config, packages@, cviews(commits@), infos@, *index, *ctx, packages@.len() as int) == Ok::<Seq<DirectView>, PlanFault>(ds),
            prop == propagation_spec(packages@, currents(infos@), *index, *ctx, direct_names(ds)),
            prop.err is None,
            planned == planned_of(ds, prop.added),
            forall|j: int| 0 <= j < releases@.len() ==> (#[trigger] planned[j]) == (
                releases@[j].package_name@,
                releases@[j].next_version.parts(),
            ),
            forall|j: int| 0 <= j < k ==> !stale_at(*index, *ctx, #[trigger] planned[j]),
        decreases releases@.len() - k,
    {
        let r = &releases[k];
        if r.next_version.is_prerelease() && branch_keeps(ctx, r.package_name.as_str()) && index.unreachable_exists(
            r.package_name.as_str(),
            &r.next_version,
        ) {
            assert(stale_at(*index, *ctx, planned[k as int]));
            let name = r.package_name.clone();
            let version = r.next_version.to_string();
            return Err(PlanError::StaleChannelTag(name, version));
        }
        k = k + 1;
    }
    Ok(releases)
}

// ---------------------------------------------------------------------------
// Laws
// ---------------------------------------------------------------------------

proof fn lemma_relevant_all_ignored(config: Config, files: Seq<Seq<char>>)
    requires
        forall|j: int| 0 <= j < files.len() ==> ignored(config, #[trigger] files[j]),
    ensures
        relevant(config, files).len() == 0,
    decreases files.len(),
{
    if files.len() > 0 {
        assert(ignored(config, files[files.len() - 1]));
        lemma_relevant_all_ignored(config, files.drop_last());
    }
}

proof fn lemma_relevant_keeps(config: Config, files: Seq<Seq<char>>, j: int)
    requires
        0 <= j < files.len(),
        !ignored(config, files[j]),
    ensures
        relevant(config, files).contains(files[j]),
    decreases files.len(),
{
    if j == files.len() - 1 {
        assert(relevant(config, files).last() == files[j]);
    } else {
        lemma_relevant_keeps(config, files.drop_last(), j);
        let r = relevant(config, files.drop_last());
        let k = choose|k: int| 0 <= k < r.len() && r[k] == files[j];
        if !ignored(config, files.last()) {
            assert(relevant(config, files)[k] == files[j]);
        }
    }
}

proof fn lemma_count_named_positive(pkgs: Seq<Package>, name: Seq<char>, k: int, i: int)
    requires
        0 <= i < k <= pkgs.len(),
        pkgs[i].name@ == name,
    ensures
        count_named(pkgs, name, k) >= 1,
    decreases k,
{
    if i < k - 1 {
        lemma_count_named_positive(pkgs, name, k - 1, i);
    }
}

/// A commit that touches only ignored files is counted for no package.
pub proof fn law_ignored_commit_counts_nowhere(config: Config, pkgs: Seq<Package>, c: CommitView, name: Seq<char>)
    requires
        forall|j: int| 0 <= j < c.files_changed.len() ==> ignored(config, #[trigger] c.files_changed[j]),
    ensures
        times(config, pkgs, c, name) == 0,
{
    lemma_relevant_all_ignored(config, c.files_changed);
}

/// A commit that changes a global dependency file (one not ignored) is
/// counted for every package.
pub proof fn law_global_commit_counts_everywhere(config: Config, pkgs: Seq<Package>, c: CommitView, j: int, p: int)
    requires
        0 <= j < c.files_changed.len(),
        !ignored(config, c.files_changed[j]),
        is_global(config, c.files_changed[j]),
        0 <= p < pkgs.len(),
    ensures
        times(config, pkgs, c, pkgs[p].name@) >= 1,
{
    lemma_relevant_keeps(config, c.files_changed, j);
    let rel = relevant(config, c.files_changed);
    let k = choose|k: int| 0 <= k < rel.len() && rel[k] == c.files_changed[j];
    assert(is_global(config, rel[k]));
    assert(touches_global(config, rel));
    lemma_count_named_positive(pkgs, pkgs[p].name@, pkgs.len() as int, p);
}

} // verus!

