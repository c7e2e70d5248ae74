//! Release tags and the commit log.
//!
//! Reading tags, resolving them to commits and walking history is I/O and
//! stays with the caller; what tags mean for each package, and which of them
//! count on the current branch, is decided here.
use vstd::prelude::*;

use crate::config::branch::BranchContext;
use crate::config::{tag_version_spec, Config};
use crate::matcher::opt_view;
use crate::commit::{cviews, parse_conventional_commit, parsed_view, CommitView, ConventionalCommit};
use crate::text::{chars_of, join, lines, split_char, split_chars, split_once, str_eq, string_from, strip_cr, trim, trim_chars, views};
use crate::version::{
    matches_channel, precedence, prerelease_matches_channel, semver_parse_of, semver_precedence_of,
    Precedence, Version, VersionParts,
};

verus! {

/// A release tag of a package.
#[derive(Debug)]
pub struct TagEntry {
    pub package: String,
    pub tag: String,
    pub version: Version,
}

impl TagEntry {
    pub fn duplicate(&self) -> (res: TagEntry)
        ensures
            res == *self,
    {
        TagEntry { package: self.package.clone(), tag: self.tag.clone(), version: self.version.clone() }
    }
}

/// A stable version released for a package, on any branch.
#[derive(Debug)]
pub struct StableVersion {
    pub package: String,
    pub version: Version,
}

/// The two versions name the same release: major, minor, patch and
/// prerelease agree (build metadata is not part of a release's identity).
pub open spec fn same_release(a: VersionParts, b: VersionParts) -> bool {
    a.0 == b.0 && a.1 == b.1 && a.2 == b.2 && a.3 == b.3
}

/// The release tags of every package, resolved once.
#[derive(Debug)]
pub struct TagIndex {
    /// Tags that count on the current branch and point at commits reachable
    /// from HEAD, in the order they were found.
    pub entries: Vec<TagEntry>,
    /// Every stable version of every package, whatever the branch; used to
    /// detect collisions.
    pub stable: Vec<StableVersion>,
    /// Tags that count on the current branch but point at commits that are
    /// not reachable from HEAD (left behind by a rebase or a force-push).
    pub unreachable: Vec<TagEntry>,
}

/// Whether a version counts on the branch: stable versions always, and on a
/// prerelease branch the versions of its channel.
pub open spec fn matches_branch(v: Version, prerelease: Option<Seq<char>>) -> bool {
    match prerelease {
        None => v.pre@.len() == 0,
        Some(ch) => v.pre@.len() == 0 || matches_channel(v.pre@, ch),
    }
}

/// Whether a version counts on the branch described by `ctx`.
pub fn version_matches_branch(v: &Version, ctx: &BranchContext) -> (res: bool)
    ensures
        res == matches_branch(*v, opt_view(ctx.prerelease)),
{
    match &ctx.prerelease {
        None => !v.is_prerelease(),
        Some(ch) => !v.is_prerelease() || prerelease_matches_channel(v.pre.as_str(), ch.as_str()),
    }
}

/// What a tag says for a package: the version its text carries under the
/// package's template, when `semver` parses it.
pub open spec fn tag_parts(config: Config, name: Seq<char>, is_root: bool, tag: Seq<char>) -> Option<VersionParts> {
    match tag_version_spec(config.template_spec(is_root), name, tag) {
        Some(text) => semver_parse_of(text),
        None => None,
    }
}

/// The version a tag carries for a package.
pub fn extract_version_from_tag(config: &Config, name: &str, is_root: bool, tag: &str) -> (res: Option<Version>)
    ensures
        crate::version::opt_parts(res) == tag_parts(*config, name@, is_root, tag@),
        res matches Some(v) ==> v.wf(),
{
    match config.tag_version(name, is_root, tag) {
        Some(text) => Version::parse(text.as_str()),
        None => None,
    }
}

/// The tags found for the packages before they are resolved to commits.
#[derive(Debug)]
pub struct TagScan {
    /// Tags that carry a version of a package that counts on the branch.
    pub candidates: Vec<TagEntry>,
    /// Every stable version found, whatever the branch.
    pub stable: Vec<StableVersion>,
}

pub type EntryView = (Seq<char>, Seq<char>, VersionParts);

pub type StableView = (Seq<char>, VersionParts);

pub open spec fn entry_view(e: TagEntry) -> EntryView {
    (e.package@, e.tag@, e.version.parts())
}

pub open spec fn stable_view(s: StableVersion) -> StableView {
    (s.package@, s.version.parts())
}

pub open spec fn entry_views(s: Seq<TagEntry>) -> Seq<EntryView> {
    s.map_values(|e: TagEntry| entry_view(e))
}

pub open spec fn stable_views(s: Seq<StableVersion>) -> Seq<StableView> {
    s.map_values(|e: StableVersion| stable_view(e))
}

/// What one tag adds for one package: its version, when it carries one, is
/// recorded as stable when it has no prerelease, and becomes a candidate when
/// it counts on the branch.
pub open spec fn scan_step(config: Config, prerelease: Option<Seq<char>>, tag: Seq<char>, pkg: (Seq<char>, bool), acc: (Seq<EntryView>, Seq<StableView>)) -> (Seq<EntryView>, Seq<StableView>) {
    match tag_parts(config, pkg.0, pkg.1, tag) {
        Some(p) => {
            let stable = if p.3.len() == 0 {
                acc.1.push((pkg.0, p))
            } else {
                acc.1
            };
            let counts = match prerelease {
                None => p.3.len() == 0,
                Some(ch) => p.3.len() == 0 || matches_channel(p.3, ch),
            };
            let cands = if counts {
                acc.0.push((pkg.0, tag, p))
            } else {
                acc.0
            };
            (cands, stable)
        },
        None => acc,
    }
}

/// One tag against every package, in order.
pub open spec fn scan_packages(config: Config, prerelease: Option<Seq<char>>, tag: Seq<char>, pkgs: Seq<(Seq<char>, bool)>, acc: (Seq<EntryView>, Seq<StableView>)) -> (Seq<EntryView>, Seq<StableView>)
    decreases pkgs.len(),
{
    if pkgs.len() == 0 {
        acc
    } else {
        scan_step(
            config,
            prerelease,
            tag,
            pkgs.last(),
            scan_packages(config, prerelease, tag, pkgs.drop_last(), acc),
        )
    }
}

/// Every tag against every package, in order.
pub open spec fn scan_tags(config: Config, prerelease: Option<Seq<char>>, tags: Seq<Seq<char>>, pkgs: Seq<(Seq<char>, bool)>) -> (Seq<EntryView>, Seq<StableView>)
    decreases tags.len(),
{
    if tags.len() == 0 {
        (Seq::empty(), Seq::empty())
    } else {
        scan_packages(config, prerelease, tags.last(), pkgs, scan_tags(config, prerelease, tags.drop_last(), pkgs))
    }
}

pub open spec fn pkg_views(pkgs: Seq<(String, bool)>) -> Seq<(Seq<char>, bool)> {
    pkgs.map_values(|p: (String, bool)| (p.0@, p.1))
}

pub open spec fn all_wf(entries: Seq<TagEntry>) -> bool {
    forall|i: int| 0 <= i < entries.len() ==> (#[trigger] entries[i]).version.wf()
}

impl TagScan {
    /// Finds, for every tag name and package (name, is-root), the version the
    /// tag carries for the package.
    pub fn scan(tag_names: &Vec<String>, packages: &Vec<(String, bool)>, config: &Config, ctx: &BranchContext) -> (res: TagScan)
        ensures
            (entry_views(res.candidates@), stable_views(res.stable@)) == scan_tags(
                *config,
                opt_view(ctx.prerelease),
                crate::text::views(tag_names@),
                pkg_views(packages@),
            ),
            all_wf(res.candidates@),
    {
        let ghost pre = opt_view(ctx.prerelease);
        let ghost pv = pkg_views(packages@);
        let mut cands: Vec<TagEntry> = Vec::new();
        let mut stable: Vec<StableVersion> = Vec::new();
        let mut t: usize = 0;
        while t < tag_names.len()
            invariant
                t <= tag_names.len(),
                pre == opt_view(ctx.prerelease),
                pv == pkg_views(packages@),
                (entry_views(cands@), stable_views(stable@)) == scan_tags(
                    *config,
                    pre,
                    crate::text::views(tag_names@).take(t as int),
                    pv,
                ),
                all_wf(cands@),
            decreases tag_names.len() - t,
        {
            let tag = &tag_names[t];
            let ghost acc0 = (entry_views(cands@), stable_views(stable@));
            let mut k: usize = 0;
            while k < packages.len()
                invariant
                    k <= packages.len(),
                    pre == opt_view(ctx.prerelease),
                    pv == pkg_views(packages@),
                    (entry_views(cands@), stable_views(stable@)) == scan_packages(
                        *config,
                        pre,
                        tag@,
                        pv.take(k as int),
                        acc0,
                    ),
                    all_wf(cands@),
                decreases packages.len() - k,
            {
                let (name, is_root) = (&packages[k].0, packages[k].1);
                assert(pv.take((k + 1) as int).drop_last() =~= pv.take(k as int));
                assert(pv.take((k + 1) as int).last() == (name@, is_root));
                match extract_version_from_tag(config, name.as_str(), is_root, tag.as_str()) {
                    Some(v) => {
                        if !v.is_prerelease() {
                            let ghost s0 = stable@;
                            stable.push(StableVersion { package: name.clone(), version: v.clone() });
                            assert(stable_views(stable@) =~= stable_views(s0).push((name@, v.parts())));
                        }
                        if version_matches_branch(&v, ctx) {
                            let ghost c0 = cands@;
                            cands.push(TagEntry { package: name.clone(), tag: tag.clone(), version: v });
                            assert(entry_views(cands@) =~= entry_views(c0).push((name@, tag@, cands@.last().version.parts())));
                        }
                    },
                    None => {},
                }
                k = k + 1;
            }
            assert(pv.take(packages.len() as int) =~= pv);
            assert(crate::text::views(tag_names@).take((t + 1) as int).drop_last() =~= crate::text::views(tag_names@).take(t as int));
            assert(crate::text::views(tag_names@).take((t + 1) as int).last() == tag@);
            t = t + 1;
        }
        assert(crate::text::views(tag_names@).take(tag_names.len() as int) =~= crate::text::views(tag_names@));
        TagScan { candidates: cands, stable }
    }
}

/// The candidates whose tags resolve to commits reachable from HEAD.
pub open spec fn reachable_entries(cands: Seq<TagEntry>, reachable: Seq<bool>) -> Seq<TagEntry>
    decreases cands.len(),
{
    if cands.len() == 0 {
        Seq::empty()
    } else {
        let rest = reachable_entries(cands.drop_last(), reachable);
        if cands.len() - 1 < reachable.len() && reachable[cands.len() - 1] {
            rest.push(cands.last())
        } else {
            rest
        }
    }
}

/// The candidates whose tag points at a commit not reachable from HEAD.
pub open spec fn unreachable_entries(cands: Seq<TagEntry>, reachable: Seq<bool>) -> Seq<TagEntry>
    decreases cands.len(),
{
    if cands.len() == 0 {
        Seq::empty()
    } else {
        let rest = unreachable_entries(cands.drop_last(), reachable);
        if cands.len() - 1 < reachable.len() && reachable[cands.len() - 1] {
            rest
        } else {
            rest.push(cands.last())
        }
    }
}

/// The tags that count on the branch, with a package's highest.
pub open spec fn latest_of(entries: Seq<TagEntry>, package: Seq<char>, channel: Option<Seq<char>>) -> Option<TagEntry>
    decreases entries.len(),
{
    if entries.len() == 0 {
        None
    } else {
        let rest = latest_of(entries.drop_last(), package, channel);
        let e = entries.last();
        let eligible = e.package@ == package && match channel {
            Some(ch) => matches_channel(e.version.pre@, ch),
            None => true,
        };
        if !eligible {
            rest
        } else {
            match rest {
                None => Some(e),
                Some(b) => if semver_precedence_of(b.version.parts(), e.version.parts()) == 1 {
                    Some(b)
                } else {
                    Some(e)
                },
            }
        }
    }
}

/// A tag entry counts for `package` on `channel` (any entry of the package
/// when no channel is given).
pub open spec fn counts_for(e: TagEntry, package: Seq<char>, channel: Option<Seq<char>>) -> bool {
    e.package@ == package && match channel {
        Some(ch) => matches_channel(e.version.pre@, ch),
        None => true,
    }
}

/// The latest tag of a package is one of its counting entries, there is one
/// exactly when some entry counts, and no counting entry has a higher
/// version.
pub proof fn law_latest_is_highest(entries: Seq<TagEntry>, package: Seq<char>, channel: Option<Seq<char>>)
    ensures
        latest_of(entries, package, channel) is None <==> forall|i: int|
            0 <= i < entries.len() ==> !counts_for(#[trigger] entries[i], package, channel),
        latest_of(entries, package, channel) matches Some(l) ==> (exists|i: int|
            0 <= i < entries.len() && #[trigger] entries[i] == l) && counts_for(l, package, channel),
        latest_of(entries, package, channel) matches Some(l) ==> forall|i: int|
            0 <= i < entries.len() && counts_for(#[trigger] entries[i], package, channel)
                ==> semver_precedence_of(entries[i].version.parts(), l.version.parts()) != 1,
    decreases entries.len(),
{
    if entries.len() > 0 {
        let rest = entries.drop_last();
        law_latest_is_highest(rest, package, channel);
        let e = entries.last();
        assert forall|i: int| 0 <= i < rest.len() implies #[trigger] entries[i] == rest[i] by {}
        match latest_of(entries, package, channel) {
            Some(l) => {
                if l == e {
                    assert(entries[entries.len() - 1] == l);
                } else {
                    let i = choose|i: int| 0 <= i < rest.len() && #[trigger] rest[i] == l;
                    assert(entries[i] == l);
                }
                assert forall|i: int|
                    0 <= i < entries.len() && counts_for(#[trigger] entries[i], package, channel)
                        implies semver_precedence_of(entries[i].version.parts(), l.version.parts()) != 1 by {
                    let x = entries[i].version.parts();
                    crate::order::law_version_order(x, e.version.parts(), l.version.parts());
                    if let Some(b) = latest_of(rest, package, channel) {
                        crate::order::law_version_order(x, b.version.parts(), e.version.parts());
                        crate::order::law_version_order(x, b.version.parts(), l.version.parts());
                    }
                }
            },
            None => {
                assert forall|i: int| 0 <= i < entries.len() implies !counts_for(#[trigger] entries[i], package, channel) by {
                    if i < rest.len() {
                        assert(entries[i] == rest[i]);
                    }
                }
            },
        }
        if forall|i: int| 0 <= i < entries.len() ==> !counts_for(#[trigger] entries[i], package, channel) {
            assert(!counts_for(entries[entries.len() - 1], package, channel));
            assert forall|i: int| 0 <= i < rest.len() implies !counts_for(#[trigger] rest[i], package, channel) by {
                assert(entries[i] == rest[i]);
            }
        }
    }
}

impl TagIndex {
    pub open spec fn wf(self) -> bool {
        all_wf(self.entries@)
    }

    /// Keeps the candidates whose tag points at a commit reachable from HEAD
    /// (`reachable[i]` for candidate `i`).
    pub fn build(scan: TagScan, reachable: &Vec<bool>) -> (res: TagIndex)
        requires
            all_wf(scan.candidates@),
        ensures
            res.entries@ == reachable_entries(scan.candidates@, reachable@),
            res.unreachable@ == unreachable_entries(scan.candidates@, reachable@),
            res.stable@ == scan.stable@,
            res.wf(),
    {
        let TagScan { candidates, stable } = scan;
        let ghost cs = candidates@;
        let mut entries: Vec<TagEntry> = Vec::new();
        let mut unreachable: Vec<TagEntry> = Vec::new();
        let mut i: usize = 0;
        while i < candidates.len()
            invariant
                i <= candidates.len(),
                cs == candidates@,
                all_wf(cs),
                entries@ == reachable_entries(cs.take(i as int), reachable@),
                unreachable@ == unreachable_entries(cs.take(i as int), reachable@),
                all_wf(entries@),
            decreases candidates.len() - i,
        {
            assert(cs.take((i + 1) as int).drop_last() =~= cs.take(i as int));
            if i < reachable.len() && reachable[i] {
                entries.push(candidates[i].duplicate());
            } else {
                unreachable.push(candidates[i].duplicate());
            }
            i = i + 1;
        }
        assert(cs.take(candidates.len() as int) =~= cs);
        TagIndex { entries, stable, unreachable }
    }

    /// An index of stable versions only, with no tags on the branch.
    pub fn from_stable_versions(stable: Vec<StableVersion>) -> (res: TagIndex)
        ensures
            res.entries@.len() == 0,
            res.unreachable@.len() == 0,
            res.stable@ == stable@,
            res.wf(),
    {
        TagIndex { entries: Vec::new(), stable, unreachable: Vec::new() }
    }

    /// Some tag of the package that counts on the branch but is not reachable
    /// from HEAD names the release `v` (build metadata ignored).
    pub open spec fn unreachable_spec(self, package: Seq<char>, v: VersionParts) -> bool {
        exists|i: int|
            0 <= i < self.unreachable@.len() && (#[trigger] self.unreachable@[i]).package@ == package
                && same_release(self.unreachable@[i].version.parts(), v)
    }

    /// Whether a tag of the package that is not reachable from HEAD already
    /// names the release `version`.
    pub fn unreachable_exists(&self, package_name: &str, version: &Version) -> (res: bool)
        ensures
            res == self.unreachable_spec(package_name@, version.parts()),
    {
        let mut i: usize = 0;
        while i < self.unreachable.len()
            invariant
                i <= self.unreachable.len(),
                forall|j: int|
                    0 <= j < i ==> !((#[trigger] self.unreachable@[j]).package@ == package_name@
                        && same_release(self.unreachable@[j].version.parts(), version.parts())),
            decreases self.unreachable.len() - i,
        {
            let u = &self.unreachable[i];
            if str_eq(u.package.as_str(), package_name) && u.version.major == version.major
                && u.version.minor == version.minor && u.version.patch == version.patch && str_eq(
                u.version.pre.as_str(),
                version.pre.as_str(),
            ) {
                return true;
            }
            i = i + 1;
        }
        false
    }

    fn latest_filtered(&self, package_name: &str, channel: Option<&str>) -> (res: Option<TagEntry>)
        requires
            self.wf(),
        ensures
            res == latest_of(self.entries@, package_name@, match channel {
                Some(c) => Some(c@),
                None => None,
            }),
    {
        let ghost ch = match channel {
            Some(c) => Some(c@),
            None => None::<Seq<char>>,
        };
        let mut best: Option<TagEntry> = None;
        let mut i: usize = 0;
        while i < self.entries.len()
            invariant
                i <= self.entries.len(),
                self.wf(),
                ch == match channel {
                    Some(c) => Some(c@),
                    None => None::<Seq<char>>,
                },
                best == latest_of(self.entries@.take(i as int), package_name@, ch),
                best matches Some(b) ==> b.version.wf(),
            decreases self.entries.len() - i,
        {
            let e = &self.entries[i];
            assert(self.entries@.take((i + 1) as int).drop_last() =~= self.entries@.take(i as int));
            assert(self.entries@.take((i + 1) as int).last() == *e);
            assert(e.version.wf());
            let eligible = str_eq(e.package.as_str(), package_name) && match channel {
                Some(c) => prerelease_matches_channel(e.version.pre.as_str(), c),
                None => true,
            };
            if eligible {
                best = match best {
                    None => Some(e.duplicate()),
                    Some(b) => {
                        match precedence(&b.version, &e.version) {
                            Precedence::Higher => Some(b),
                            _ => Some(e.duplicate()),
                        }
                    },
                };
            }
            i = i + 1;
        }
        assert(self.entries@.take(self.entries.len() as int) =~= self.entries@);
        best
    }

    /// The tag with the highest version of a package (the last one found
    /// among equals).
    pub fn latest_version(&self, package_name: &str) -> (res: Option<TagEntry>)
        requires
            self.wf(),
        ensures
            res == latest_of(self.entries@, package_name@, None),
    {
        self.latest_filtered(package_name, None)
    }

    /// The tag with the highest version of a package on a prerelease channel.
    pub fn latest_channel_version(&self, package_name: &str, channel: &str) -> (res: Option<TagEntry>)
        requires
            self.wf(),
        ensures
            res == latest_of(self.entries@, package_name@, Some(channel@)),
    {
        self.latest_filtered(package_name, Some(channel))
    }

    /// Some stable tag of the package names the release `v`: build metadata
    /// does not tell two releases apart.
    pub open spec fn exists_spec(self, package: Seq<char>, v: VersionParts) -> bool {
        exists|i: int|
            0 <= i < self.stable@.len() && (#[trigger] self.stable@[i]).package@ == package
                && same_release(self.stable@[i].version.parts(), v)
    }

    /// Whether a version was already released as a stable tag of the package,
    /// on any branch (build metadata ignored).
    pub fn version_exists(&self, package_name: &str, version: &Version) -> (res: bool)
        ensures
            res == self.exists_spec(package_name@, version.parts()),
    {
        let mut i: usize = 0;
        while i < self.stable.len()
            invariant
                i <= self.stable.len(),
                forall|j: int|
                    0 <= j < i ==> !((#[trigger] self.stable@[j]).package@ == package_name@
                        && same_release(self.stable@[j].version.parts(), version.parts())),
            decreases self.stable.len() - i,
        {
            let s = &self.stable[i];
            if str_eq(s.package.as_str(), package_name) && s.version.major == version.major
                && s.version.minor == version.minor && s.version.patch == version.patch && str_eq(
                s.version.pre.as_str(),
                version.pre.as_str(),
            ) {
                return true;
            }
            i = i + 1;
        }
        false
    }
}

pub proof fn lemma_latest_wf(entries: Seq<TagEntry>, package: Seq<char>, channel: Option<Seq<char>>)
    requires
        all_wf(entries),
    ensures
        latest_of(entries, package, channel) matches Some(e) ==> e.version.wf(),
    decreases entries.len(),
{
    if entries.len() > 0 {
        lemma_latest_wf(entries.drop_last(), package, channel);
        assert(entries.last() == entries[entries.len() - 1]);
    }
}

// ---------------------------------------------------------------------------
// The commit log
// ---------------------------------------------------------------------------

/// The state while reading the lines of one log record after its header:
/// message lines, changed files, and whether the file list has started.
pub type LogState = (Seq<Seq<char>>, Seq<Seq<char>>, bool);

/// One line of a record: after the message a blank line following a blank
/// line starts the file list; in the file list, non-empty lines are files.
pub open spec fn log_step(st: LogState, line: Seq<char>) -> LogState {
    if st.2 {
        if line.len() > 0 {
            (st.0, st.1.push(line), true)
        } else {
            st
        }
    } else if line.len() == 0 && st.0.len() > 0 && st.0.last().len() == 0 {
        (st.0, st.1, true)
    } else {
        (st.0.push(line), st.1, false)
    }
}

pub open spec fn log_scan(st: LogState, lines: Seq<Seq<char>>) -> LogState
    decreases lines.len(),
{
    if lines.len() == 0 {
        st
    } else {
        log_step(log_scan(st, lines.drop_last()), lines.last())
    }
}

/// The message lines without trailing empty lines.
pub open spec fn drop_trailing_empty(ls: Seq<Seq<char>>) -> Seq<Seq<char>>
    decreases ls.len(),
{
    if ls.len() > 0 && ls.last().len() == 0 {
        drop_trailing_empty(ls.drop_last())
    } else {
        ls
    }
}

/// A record of `git log --format=%x1e%H%x09%B --name-only`: trimmed; its first
/// line is `<hash>\t<first message line>`, the message runs until a blank line
/// after a blank line, the changed files follow. Gives (hash, message, files).
pub open spec fn record_spec(record: Seq<char>) -> Option<(Seq<char>, Seq<char>, Seq<Seq<char>>)> {
    let r = trim(record);
    let ls = lines(r);
    if r.len() == 0 || ls.len() == 0 {
        None
    } else {
        match split_once(ls[0], seq!['\t']) {
            None => None,
            Some((hash, first)) => {
                let st = log_scan((seq![first], Seq::empty(), false), ls.drop_first());
                Some((hash, join(drop_trailing_empty(st.0), seq!['\n']), st.1))
            },
        }
    }
}

/// A hexadecimal digit, either case.
pub open spec fn is_hex_digit(c: char) -> bool {
    ('0' <= c && c <= '9') || ('a' <= c && c <= 'f') || ('A' <= c && c <= 'F')
}

/// The full id a hash text denotes: one to forty hexadecimal digits, read as
/// the leading digits of the id (the rest zero) and written back as forty
/// lowercase digits; none for any other text.
pub open spec fn full_oid_text(text: Seq<char>) -> Option<Seq<char>> {
    if 0 < text.len() <= 40 && forall|i: int| 0 <= i < text.len() ==> is_hex_digit(#[trigger] text[i]) {
        Some(text.map_values(|c: char| crate::text::ascii_lower_char(c)) + Seq::new((40 - text.len()) as nat, |i: int| '0'))
    } else {
        None
    }
}

/// `git2::Oid::from_str` followed by `to_string`. The contract claims what
/// git2 documents of its errors (empty, over forty characters, a non-hex
/// character) and what libgit2's `git_oid_fromstrn` and `git_oid_tostr` do
/// with a valid text: the digits fill the id from the front, the rest is
/// zero, and the id is written as forty lowercase hexadecimal digits.
#[verifier::external_body]
fn oid_text(text: &str) -> (res: Option<String>)
    ensures
        opt_view(res) == full_oid_text(text@),
{
    git2::Oid::from_str(text).ok().map(|o| o.to_string())
}

/// `str::lines` on a character vector.
pub fn lines_of(s: &Vec<char>) -> (res: Vec<Vec<char>>)
    ensures
        res@.map_values(|l: Vec<char>| l@) == lines(s@),
{
    let pieces = split_chars(s, '\n');
    let ghost pv = pieces@.map_values(|l: Vec<char>| l@);
    assert(pv == split_char(s@, '\n'));
    proof {
        crate::text::lemma_split_char_nonempty(s@, '\n');
    }
    let n = if pieces[pieces.len() - 1].len() == 0 {
        pieces.len() - 1
    } else {
        pieces.len()
    };
    let ghost kept = if pv.last().len() == 0 {
        pv.drop_last()
    } else {
        pv
    };
    assert(kept =~= pv.take(n as int));
    let mut out: Vec<Vec<char>> = Vec::new();
    let mut i: usize = 0;
    while i < n
        invariant
            i <= n <= pieces@.len(),
            pv == pieces@.map_values(|l: Vec<char>| l@),
            kept == pv.take(n as int),
            out@.map_values(|l: Vec<char>| l@) == kept.take(i as int).map_values(|l: Seq<char>| strip_cr(l)),
        decreases n - i,
    {
        let p = &pieces[i];
        let line = if p.len() > 0 && p[p.len() - 1] == '\r' {
            crate::text::slice(p, 0, p.len() - 1)
        } else {
            p.clone()
        };
        assert(line@ =~= strip_cr(p@));
        let ghost o0 = out@;
        out.push(line);
        assert(out@.map_values(|l: Vec<char>| l@) =~= o0.map_values(|l: Vec<char>| l@).push(strip_cr(kept[i as int])));
        assert(kept.take((i + 1) as int).map_values(|l: Seq<char>| strip_cr(l)) =~= kept.take(i as int).map_values(|l: Seq<char>| strip_cr(l)).push(strip_cr(kept[i as int])));
        i = i + 1;
    }
    assert(kept.take(n as int) =~= kept);
    out
}

/// Parses one log record into (hash, message, files).
pub fn parse_log_record(record: &Vec<char>) -> (res: Option<(String, String, Vec<String>)>)
    ensures
        match res {
            Some((h, m, f)) => record_spec(record@) == Some((h@, m@, views(f@))),
            None => record_spec(record@) is None,
        },
{
    let r = trim_chars(record);
    if r.len() == 0 {
        return None;
    }
    let ls = lines_of(&r);
    let ghost lv = ls@.map_values(|l: Vec<char>| l@);
    if ls.len() == 0 {
        return None;
    }
    let mut tab: Vec<char> = Vec::new();
    tab.push('\t');
    assert(tab@ =~= seq!['\t']);
    assert(lv[0] == ls@[0]@);
    let (hash, first) = match crate::text::split_once_chars(&ls[0], &tab) {
        Some(p) => p,
        None => {
            return None;
        },
    };
    let mut msg: Vec<String> = Vec::new();
    msg.push(string_from(&first));
    let mut files: Vec<String> = Vec::new();
    let mut past = false;
    assert(views(msg@) =~= seq![first@]);
    let ghost rest = lv.drop_first();
    let mut i: usize = 1;
    assert(rest.take(0) =~= Seq::<Seq<char>>::empty());
    while i < ls.len()
        invariant
            1 <= i <= ls@.len(),
            lv == ls@.map_values(|l: Vec<char>| l@),
            rest == lv.drop_first(),
            (views(msg@), views(files@), past) == log_scan((seq![first@], Seq::empty(), false), rest.take(i - 1)),
            msg@.len() > 0,
        decreases ls@.len() - i,
    {
        let line = &ls[i];
        assert(rest.take(i as int).drop_last() =~= rest.take(i - 1));
        assert(rest.take(i as int).last() == line@);
        let ghost m0 = msg@;
        let ghost f0 = files@;
        if past {
            if line.len() > 0 {
                files.push(string_from(line));
                assert(views(files@) =~= views(f0).push(line@));
            }
        } else {
            let last_empty = msg[msg.len() - 1].as_str().unicode_len() == 0;
            assert(views(msg@).last() == msg@[msg@.len() - 1]@);
            if line.len() == 0 && last_empty {
                past = true;
            } else {
                msg.push(string_from(line));
                assert(views(msg@) =~= views(m0).push(line@));
            }
        }
        i = i + 1;
    }
    assert(rest.take(ls@.len() - 1) =~= rest);
    let ghost full_msg = views(msg@);
    while msg.len() > 0 && msg[msg.len() - 1].as_str().unicode_len() == 0
        invariant
            drop_trailing_empty(views(msg@)) == drop_trailing_empty(full_msg),
        decreases msg@.len(),
    {
        let ghost m0 = msg@;
        assert(views(m0).last() == m0[m0.len() - 1]@);
        msg.pop();
        assert(views(msg@) =~= views(m0).drop_last());
    }
    assert(drop_trailing_empty(views(msg@)) == views(msg@)) by {
        if views(msg@).len() > 0 {
            assert(views(msg@).last() == msg@[msg@.len() - 1]@);
        }
    }
    let mut joined: Vec<char> = Vec::new();
    let mut k: usize = 0;
    while k < msg.len()
        invariant
            k <= msg@.len(),
            joined@ == join(views(msg@).take(k as int), seq!['\n']),
        decreases msg@.len() - k,
    {
        let ghost t = views(msg@).take((k + 1) as int);
        assert(t.drop_last() =~= views(msg@).take(k as int));
        assert(t.last() == msg@[k as int]@);
        if k > 0 {
            joined.push('\n');
        }
        let c = chars_of(msg[k].as_str());
        crate::text::append_chars(&mut joined, &c);
        if k == 0 {
            assert(t =~= seq![msg@[0]@]);
        }
        k = k + 1;
    }
    assert(views(msg@).take(msg@.len() as int) =~= views(msg@));
    Some((string_from(&hash), string_from(&joined), files))
}

/// The short hash shown for a commit: its first eight characters.
pub open spec fn short_hash(hash: Seq<char>) -> Seq<char> {
    if hash.len() <= 8 {
        hash
    } else {
        hash.take(8)
    }
}

/// The records of the log output, in order.
pub open spec fn log_records(raw: Seq<char>) -> Seq<Seq<char>> {
    split_char(raw, '\u{1e}')
}

/// The commits of the log records, newest first: each record that parses
/// and whose message is a conventional commit (or a revert), with its full
/// id and changed files.
pub open spec fn log_commits(records: Seq<Seq<char>>) -> Seq<CommitView>
    decreases records.len(),
{
    if records.len() == 0 {
        Seq::empty()
    } else {
        let rest = log_commits(records.drop_last());
        match record_spec(records.last()) {
            Some((h, m, f)) => match parsed_view(short_hash(h), m) {
                Some(v) => rest.push(CommitView { oid: full_oid_text(h), files_changed: f, ..v }),
                None => rest,
            },
            None => rest,
        }
    }
}

/// Parses the output of `git log --format=%x1e%H%x09%B --name-only`.
pub fn parse_git_log(raw: &str) -> (res: Vec<ConventionalCommit>)
    ensures
        cviews(res@) == log_commits(log_records(raw@)),
{
    let chars = chars_of(raw);
    let records = split_chars(&chars, '\u{1e}');
    let ghost rv = records@.map_values(|r: Vec<char>| r@);
    assert(rv == log_records(raw@));
    let mut out: Vec<ConventionalCommit> = Vec::new();
    let mut i: usize = 0;
    while i < records.len()
        invariant
            i <= records@.len(),
            rv == records@.map_values(|r: Vec<char>| r@),
            cviews(out@) == log_commits(rv.take(i as int)),
        decreases records@.len() - i,
    {
        assert(rv.take((i + 1) as int).drop_last() =~= rv.take(i as int));
        assert(rv.take((i + 1) as int).last() == records@[i as int]@);
        match parse_log_record(&records[i]) {
            Some((hash, msg, files)) => {
                let hc = chars_of(hash.as_str());
                let short = if hc.len() <= 8 {
                    string_from(&hc)
                } else {
                    let t = crate::text::slice(&hc, 0, 8);
                    string_from(&t)
                };
                assert(short@ =~= short_hash(hash@));
                match parse_conventional_commit(short.as_str(), msg.as_str()) {
                    Some(c) => {
                        let mut c = c;
                        c.oid = oid_text(hash.as_str());
                        c.files_changed = files;
                        let ghost o0 = out@;
                        let ghost cv = c@;
                        out.push(c);
                        assert(cviews(out@) =~= cviews(o0).push(cv));
                    },
                    None => {},
                }
            },
            None => {},
        }
        i = i + 1;
    }
    assert(rv.take(records@.len() as int) =~= rv);
    out
}

} // verus!
