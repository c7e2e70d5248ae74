//! Semantic versions and the rules that compute the next one.
//!
//! Parsing, validation and precedence of versions are the `semver` crate's;
//! the arithmetic of bumps, the prerelease channels, the maintenance caps and
//! the propagation through dependents are this library's own and are proved
//! here.
use vstd::prelude::*;

use semver::{BuildMetadata, Prerelease};

use crate::commit::{BumpLevel, ConventionalCommit};
use crate::git::TagIndex;
use crate::package::Package;
use crate::config::branch::{BranchContext, MaintenanceRange};
use crate::matcher::opt_view;
use crate::text::{
    all_digits, append_chars, chars_of, decimal, parse_u64, parse_u64_spec, push_decimal, rfind,
    rfind_char, slice, split_char, str_eq, string_from, views,
};

verus! {

// ---------------------------------------------------------------------------
// Versions
// ---------------------------------------------------------------------------

/// A semantic version `major.minor.patch[-pre][+build]`; `pre` and `build` are
/// the dot-separated identifier strings, empty when absent.
#[derive(Debug, PartialEq, Eq)]
pub struct Version {
    pub major: u64,
    pub minor: u64,
    pub patch: u64,
    pub pre: String,
    pub build: String,
}

/// The plain parts of a version, `(major, minor, patch, pre, build)`.
pub type VersionParts = (u64, u64, u64, Seq<char>, Seq<char>);

/// A character semver allows in an identifier: ASCII letters, digits, `-`.
pub open spec fn is_identifier_char(c: char) -> bool {
    ('A' <= c && c <= 'Z') || ('a' <= c && c <= 'z') || ('0' <= c && c <= '9') || c == '-'
}

/// One dot-separated part of an identifier: not empty, of identifier
/// characters, and (where `no_leading_zero`) not a number of several digits
/// that starts with `0`.
pub open spec fn identifier_part_ok(part: Seq<char>, no_leading_zero: bool) -> bool {
    &&& part.len() > 0
    &&& forall|i: int| 0 <= i < part.len() ==> is_identifier_char(#[trigger] part[i])
    &&& (no_leading_zero && part.len() > 1 && all_digits(part) ==> part[0] != '0')
}

/// semver's identifier grammar: empty, or dot-separated parts that are each
/// fine.
pub open spec fn identifier_ok(text: Seq<char>, no_leading_zero: bool) -> bool {
    text.len() == 0 || forall|k: int|
        0 <= k < split_char(text, '.').len() ==> identifier_part_ok(#[trigger] split_char(text, '.')[k], no_leading_zero)
}

/// Whether `semver::Prerelease::new(text)` accepts `text`: numeric parts
/// carry no leading zero.
pub open spec fn prerelease_valid(text: Seq<char>) -> bool {
    identifier_ok(text, true)
}

/// Whether `semver::BuildMetadata::new(text)` accepts `text`: leading zeros
/// are allowed.
pub open spec fn build_valid(text: Seq<char>) -> bool {
    identifier_ok(text, false)
}

/// What `semver::Version::parse(text)` yields, as plain parts.
pub uninterp spec fn semver_parse_of(text: Seq<char>) -> Option<VersionParts>;

/// The precedence `semver` gives two versions (`Ord for semver::Version`):
/// `-1` when the first is lower, `0` when equal, `1` when higher.
pub open spec fn semver_precedence_of(a: VersionParts, b: VersionParts) -> int {
    crate::order::version_order(a, b)
}

impl Version {
    pub open spec fn parts(self) -> VersionParts {
        (self.major, self.minor, self.patch, self.pre@, self.build@)
    }

    /// The identifiers are ones `semver` accepts (an empty one always is).
    pub open spec fn wf(self) -> bool {
        &&& (self.pre@.len() == 0 || prerelease_valid(self.pre@))
        &&& (self.build@.len() == 0 || build_valid(self.build@))
    }

    /// The version can take a major, minor or patch bump without overflow.
    pub open spec fn bumpable(self) -> bool {
        self.major < u64::MAX && self.minor < u64::MAX && self.patch < u64::MAX
    }

    /// `major.minor.patch` with no prerelease and no build metadata.
    pub fn new(major: u64, minor: u64, patch: u64) -> (v: Version)
        ensures
            v.major == major,
            v.minor == minor,
            v.patch == patch,
            v.pre@.len() == 0,
            v.build@.len() == 0,
            v.wf(),
    {
        Version { major, minor, patch, pre: String::new(), build: String::new() }
    }

    /// `semver::Version::parse`.
    pub fn parse(text: &str) -> (res: Option<Version>)
        ensures
            opt_parts(res) == semver_parse_of(text@),
            res matches Some(v) ==> v.wf(),
    {
        match parse_version(text) {
            Ok(v) => Some(v),
            Err(_) => None,
        }
    }

    /// `semver::Version::parse`, with the message of its error.
    pub fn parse_or_error(text: &str) -> (res: Result<Version, String>)
        ensures
            match res {
                Ok(v) => semver_parse_of(text@) == Some(v.parts()) && v.wf(),
                Err(e) => semver_parse_of(text@) is None && e@ == semver_error_of(text@),
            },
    {
        parse_version(text)
    }

    /// The version as `semver` displays it.
    pub fn to_string(&self) -> (s: String)
        ensures
            s@ == version_text(self.parts()),
    {
        let mut v: Vec<char> = Vec::new();
        push_decimal(&mut v, self.major);
        v.push('.');
        push_decimal(&mut v, self.minor);
        v.push('.');
        push_decimal(&mut v, self.patch);
        let pre = chars_of(self.pre.as_str());
        if pre.len() > 0 {
            v.push('-');
            append_chars(&mut v, &pre);
        }
        let build = chars_of(self.build.as_str());
        if build.len() > 0 {
            v.push('+');
            append_chars(&mut v, &build);
        }
        assert(v@ =~= version_text(self.parts()));
        string_from(&v)
    }

    /// Field-by-field equality, as `==` on `semver::Version` compares.
    pub fn equals(&self, other: &Version) -> (res: bool)
        ensures
            res == (self.parts() == other.parts()),
    {
        self.major == other.major && self.minor == other.minor && self.patch == other.patch
            && crate::text::str_eq(self.pre.as_str(), other.pre.as_str())
            && crate::text::str_eq(self.build.as_str(), other.build.as_str())
    }

    /// Whether the version has a prerelease part.
    pub fn is_prerelease(&self) -> (res: bool)
        ensures
            res == (self.pre@.len() > 0),
    {
        self.pre.as_str().unicode_len() > 0
    }
}

impl Clone for Version {
    fn clone(&self) -> (res: Self)
        ensures
            res == *self,
    {
        Version {
            major: self.major,
            minor: self.minor,
            patch: self.patch,
            pre: self.pre.clone(),
            build: self.build.clone(),
        }
    }
}

pub open spec fn opt_parts(v: Option<Version>) -> Option<VersionParts> {
    match v {
        Some(v) => Some(v.parts()),
        None => None,
    }
}

/// `major.minor.patch`, then `-pre` and `+build` when present.
pub open spec fn version_text(v: VersionParts) -> Seq<char> {
    decimal(v.0 as nat) + seq!['.'] + decimal(v.1 as nat) + seq!['.'] + decimal(v.2 as nat) + (if v.3.len()
        > 0 {
        seq!['-'] + v.3
    } else {
        Seq::empty()
    }) + (if v.4.len() > 0 {
        seq!['+'] + v.4
    } else {
        Seq::empty()
    })
}

/// The message of the error `semver::Version::parse(text)` reports, when it
/// fails.
pub uninterp spec fn semver_error_of(text: Seq<char>) -> Seq<char>;

/// `semver::Version::parse(text)`, as plain parts, or the message of its
/// error. The contract claims that the result is the one `semver_parse_of`
/// names, that the message is the one `semver_error_of` names, and that the
/// identifiers are ones `Prerelease::new` and `BuildMetadata::new` accept (the
/// parser reads them with the same identifier rules).
#[verifier::external_body]
fn parse_version(text: &str) -> (res: Result<Version, String>)
    ensures
        match res {
            Ok(v) => semver_parse_of(text@) == Some(v.parts()) && (v.pre@.len() == 0 || prerelease_valid(v.pre@))
                && (v.build@.len() == 0 || build_valid(v.build@)),
            Err(e) => semver_parse_of(text@) is None && e@ == semver_error_of(text@),
        },
{
    let v = semver::Version::parse(text).map_err(|e| e.to_string())?;
    Ok(Version {
        major: v.major,
        minor: v.minor,
        patch: v.patch,
        pre: v.pre.as_str().to_string(),
        build: v.build.as_str().to_string(),
    })
}

/// `semver::Prerelease::new(text)`: the identifier text when valid. The
/// contract claims that it succeeds exactly when `prerelease_valid(text)`
/// and then holds `text` itself.
#[verifier::external_body]
fn prerelease_new(text: &str) -> (res: Option<String>)
    ensures
        res is Some <==> prerelease_valid(text@),
        res matches Some(p) ==> p@ == text@,
{
    semver::Prerelease::new(text).ok().map(|p| p.as_str().to_string())
}

/// The order of two versions' precedence.
#[derive(Debug, Clone, Copy, PartialEq, Eq, Structural)]
pub enum Precedence {
    Lower,
    Same,
    Higher,
}

impl Precedence {
    pub open spec fn sign(self) -> int {
        match self {
            Precedence::Lower => -1,
            Precedence::Same => 0,
            Precedence::Higher => 1,
        }
    }
}

/// `Ord::cmp` on the two versions as `semver::Version` values. The contract
/// claims that the result is the order `semver_precedence_of` states
/// (semver-1.0.28's derived `Ord` on `Version` with its `Ord` impls for
/// `Prerelease` and `BuildMetadata`).
#[verifier::external_body]
pub(crate) fn precedence(a: &Version, b: &Version) -> (r: Precedence)
    requires
        a.wf(),
        b.wf(),
    ensures
        r.sign() == semver_precedence_of(a.parts(), b.parts()),
{
    let pa = Prerelease::new(&a.pre).unwrap_or(Prerelease::EMPTY);
    let pb = Prerelease::new(&b.pre).unwrap_or(Prerelease::EMPTY);
    let ba = BuildMetadata::new(&a.build).unwrap_or(BuildMetadata::EMPTY);
    let bb = BuildMetadata::new(&b.build).unwrap_or(BuildMetadata::EMPTY);
    let x = semver::Version { major: a.major, minor: a.minor, patch: a.patch, pre: pa, build: ba };
    let y = semver::Version { major: b.major, minor: b.minor, patch: b.patch, pre: pb, build: bb };
    match x.cmp(&y) {
        std::cmp::Ordering::Less => Precedence::Lower,
        std::cmp::Ordering::Equal => Precedence::Same,
        std::cmp::Ordering::Greater => Precedence::Higher,
    }
}

/// `Ord::max` of two versions: the second unless the first is higher.
pub open spec fn max_version(a: Version, b: Version) -> Version {
    if semver_precedence_of(a.parts(), b.parts()) == 1 {
        a
    } else {
        b
    }
}

/// The higher of two versions, the second when they are equal in precedence.
pub fn version_max(a: &Version, b: &Version) -> (res: Version)
    requires
        a.wf(),
        b.wf(),
    ensures
        res == max_version(*a, *b),
        res.wf(),
{
    match precedence(a, b) {
        Precedence::Higher => a.clone(),
        _ => b.clone(),
    }
}

// ---------------------------------------------------------------------------
// Bumps
// ---------------------------------------------------------------------------

/// The version a bump of the given level leads to; a major bump of a `0.x`
/// version only raises the minor.
pub open spec fn bumped(v: VersionParts, bump: BumpLevel) -> VersionParts {
    match bump {
        BumpLevel::NoBump => v,
        BumpLevel::Patch => (v.0, v.1, (v.2 + 1) as u64, Seq::empty(), Seq::empty()),
        BumpLevel::Minor => (v.0, (v.1 + 1) as u64, 0, Seq::empty(), Seq::empty()),
        BumpLevel::Major => if v.0 == 0 {
            (0, (v.1 + 1) as u64, 0, Seq::empty(), Seq::empty())
        } else {
            ((v.0 + 1) as u64, 0, 0, Seq::empty(), Seq::empty())
        },
    }
}

/// Applies a bump: prerelease and build metadata are dropped unless nothing
/// is bumped.
pub fn apply_bump(version: &Version, bump: BumpLevel) -> (res: Version)
    requires
        version.bumpable(),
    ensures
        res.parts() == bumped(version.parts(), bump),
        res.wf() || !version.wf() ,
        bump == BumpLevel::NoBump ==> res == *version,
{
    match bump {
        BumpLevel::NoBump => version.clone(),
        BumpLevel::Patch => Version::new(version.major, version.minor, version.patch + 1),
        BumpLevel::Minor => Version::new(version.major, version.minor + 1, 0),
        BumpLevel::Major => {
            if version.major == 0 {
                Version::new(0, version.minor + 1, 0)
            } else {
                Version::new(version.major + 1, 0, 0)
            }
        },
    }
}

/// What the version rules read of a commit: the id git-cliff is given, the
/// raw message and the bump level.
pub type CommitKey = (Seq<char>, Seq<char>, BumpLevel);

/// The id git-cliff sees for a commit: the full id when known, else the hash.
pub open spec fn cliff_id(c: ConventionalCommit) -> Seq<char> {
    match c@.oid {
        Some(o) => o,
        None => c@.hash,
    }
}

pub open spec fn commit_key(c: ConventionalCommit) -> CommitKey {
    (cliff_id(c), c.raw_message@, c.bump)
}

pub open spec fn keys(commits: Seq<ConventionalCommit>) -> Seq<CommitKey> {
    commits.map_values(|c: ConventionalCommit| commit_key(c))
}

/// The key of a commit given by its view.
pub open spec fn view_key(c: crate::commit::CommitView) -> CommitKey {
    (
        match c.oid {
            Some(o) => o,
            None => c.hash,
        },
        c.raw_message,
        c.bump,
    )
}

pub proof fn lemma_keys_views(commits: Seq<ConventionalCommit>)
    ensures
        keys(commits) == crate::commit::cviews(commits).map_values(
            |c: crate::commit::CommitView| view_key(c),
        ),
{
    assert(keys(commits) =~= crate::commit::cviews(commits).map_values(
        |c: crate::commit::CommitView| view_key(c),
    ));
}

/// The highest bump level among the commits (`NoBump` for none).
pub open spec fn max_bump(commits: Seq<CommitKey>) -> BumpLevel
    decreases commits.len(),
{
    if commits.len() == 0 {
        BumpLevel::NoBump
    } else {
        let rest = max_bump(commits.drop_last());
        if commits.last().2.rank_of() > rest.rank_of() {
            commits.last().2
        } else {
            rest
        }
    }
}

/// The highest bump level among `commits`.
pub fn highest_bump(commits: &Vec<ConventionalCommit>) -> (res: BumpLevel)
    ensures
        res == max_bump(keys(commits@)),
{
    let mut best = BumpLevel::NoBump;
    let mut i: usize = 0;
    while i < commits.len()
        invariant
            i <= commits.len(),
            best == max_bump(keys(commits@.take(i as int))),
        decreases commits.len() - i,
    {
        assert(keys(commits@.take((i + 1) as int)).drop_last() =~= keys(commits@.take(i as int)));
        if commits[i].bump.rank() > best.rank() {
            best = commits[i].bump;
        }
        i = i + 1;
    }
    assert(commits@.take(commits.len() as int) =~= commits@);
    best
}

/// The fallback when git-cliff's answer is not a version: the highest bump
/// among the commits, applied directly.
pub fn apply_bump_fallback(version: &Version, commits: &Vec<ConventionalCommit>) -> (res: Version)
    requires
        version.bumpable(),
    ensures
        res.parts() == bumped(version.parts(), max_bump(keys(commits@))),
        version.wf() ==> res.wf(),
{
    let bump = highest_bump(commits);
    apply_bump(version, bump)
}

// ---------------------------------------------------------------------------
// Prerelease channels
// ---------------------------------------------------------------------------

/// The channel of a prerelease string: `beta.3` is on `beta`, a string whose
/// last dot-separated part is not a number is its own channel; none when empty.
pub open spec fn prerelease_channel(pre: Seq<char>) -> Option<Seq<char>> {
    if pre.len() == 0 {
        None
    } else {
        match rfind_char(pre, '.') {
            Some(d) => if parse_u64_spec(pre.skip(d + 1)) is Some {
                Some(pre.take(d))
            } else {
                Some(pre)
            },
            None => Some(pre),
        }
    }
}

/// The number after the last dot of a prerelease string, `0` when absent or
/// not a number.
pub open spec fn prerelease_number(pre: Seq<char>) -> u64 {
    match rfind_char(pre, '.') {
        Some(d) => match parse_u64_spec(pre.skip(d + 1)) {
            Some(n) => n,
            None => 0,
        },
        None => 0,
    }
}

/// `beta.1` and `beta` are on channel `beta`; `betamax.1` is not.
pub open spec fn matches_channel(pre: Seq<char>, channel: Seq<char>) -> bool {
    pre == channel || (channel + seq!['.']).is_prefix_of(pre)
}

/// Whether a prerelease string is on a channel (`"beta.1"` is on `"beta"`).
pub fn prerelease_matches_channel(pre: &str, channel: &str) -> (res: bool)
    ensures
        res == matches_channel(pre@, channel@),
{
    let p = chars_of(pre);
    let mut c = chars_of(channel);
    if crate::text::chars_eq(&p, &c) {
        return true;
    }
    c.push('.');
    assert(c@ =~= channel@ + seq!['.']);
    crate::text::starts_with(&p, &c)
}

/// The prerelease channel of a version.
pub fn extract_prerelease_channel(version: &Version) -> (res: Option<String>)
    ensures
        opt_view(res) == prerelease_channel(version.pre@),
{
    let pre = chars_of(version.pre.as_str());
    if pre.len() == 0 {
        return None;
    }
    proof {
        crate::text::lemma_rfind_char(pre@, '.');
    }
    match rfind(&pre, '.') {
        Some(d) => {
            let after = slice(&pre, d + 1, pre.len());
            assert(after@ =~= pre@.skip(d + 1));
            if parse_u64(&after).is_some() {
                let before = slice(&pre, 0, d);
                assert(before@ =~= pre@.take(d as int));
                Some(string_from(&before))
            } else {
                Some(string_from(&pre))
            }
        },
        None => Some(string_from(&pre)),
    }
}

/// The prerelease number of a version (`2.0.0-beta.3` gives 3).
pub fn extract_prerelease_number(version: &Version) -> (res: u64)
    ensures
        res == prerelease_number(version.pre@),
{
    let pre = chars_of(version.pre.as_str());
    proof {
        crate::text::lemma_rfind_char(pre@, '.');
    }
    match rfind(&pre, '.') {
        Some(d) => {
            let after = slice(&pre, d + 1, pre.len());
            assert(after@ =~= pre@.skip(d + 1));
            match parse_u64(&after) {
                Some(n) => n,
                None => 0,
            }
        },
        None => 0,
    }
}

fn same_channel(a: &Option<String>, b: &Option<String>) -> (res: bool)
    ensures
        res == (opt_view(*a) == opt_view(*b)),
{
    match (a, b) {
        (Some(x), Some(y)) => str_eq(x.as_str(), y.as_str()),
        (None, None) => true,
        _ => false,
    }
}

// ---------------------------------------------------------------------------
// Classifying a planned release
// ---------------------------------------------------------------------------

/// The bump a move from `current` to `next` represents. A prerelease move is
/// a minor when it raises the major, leaves a stable base for a higher minor,
/// or changes channel; otherwise a patch.
pub open spec fn classify_spec(current: VersionParts, next: VersionParts) -> BumpLevel {
    if next.3.len() > 0 {
        if next.0 > current.0 || (current.3.len() == 0 && next.1 > current.1) || (current.3.len() > 0
            && prerelease_channel(current.3) != prerelease_channel(next.3)) {
            BumpLevel::Minor
        } else {
            BumpLevel::Patch
        }
    } else if next.0 > current.0 {
        BumpLevel::Major
    } else if next.1 > current.1 {
        BumpLevel::Minor
    } else if next.2 > current.2 {
        BumpLevel::Patch
    } else {
        BumpLevel::NoBump
    }
}

/// The bump level of a move from `current` to `next`.
pub fn classify_bump(current: &Version, next: &Version) -> (res: BumpLevel)
    ensures
        res == classify_spec(current.parts(), next.parts()),
{
    if next.is_prerelease() {
        let cur_pre = current.is_prerelease();
        if next.major > current.major || (!cur_pre && next.minor > current.minor) {
            return BumpLevel::Minor;
        }
        if cur_pre {
            let a = extract_prerelease_channel(current);
            let b = extract_prerelease_channel(next);
            if !same_channel(&a, &b) {
                return BumpLevel::Minor;
            }
        }
        return BumpLevel::Patch;
    }
    if next.major > current.major {
        BumpLevel::Major
    } else if next.minor > current.minor {
        BumpLevel::Minor
    } else if next.patch > current.patch {
        BumpLevel::Patch
    } else {
        BumpLevel::NoBump
    }
}

// ---------------------------------------------------------------------------
// Maintenance ranges
// ---------------------------------------------------------------------------

pub open spec fn in_range(v: Version, range: MaintenanceRange) -> bool {
    match range {
        MaintenanceRange::Major(m) => v.major == m,
        MaintenanceRange::MajorMinor(m, n) => v.major == m && v.minor == n,
    }
}

/// Whether a version lies in a maintenance range.
pub fn version_in_maintenance_range(v: &Version, range: &MaintenanceRange) -> (res: bool)
    ensures
        res == in_range(*v, *range),
{
    match range {
        MaintenanceRange::Major(m) => v.major == *m,
        MaintenanceRange::MajorMinor(m, n) => v.major == *m && v.minor == *n,
    }
}

/// The cap a maintenance branch puts on a computed version: `N.M.x` turns
/// anything above the current minor into a patch, `N.x` (or no range) turns a
/// major into a minor.
pub open spec fn capped_spec(current: VersionParts, next: VersionParts, range: Option<MaintenanceRange>) -> VersionParts {
    match range {
        Some(MaintenanceRange::MajorMinor(_, _)) => if next.0 > current.0 || next.1
            > current.1 {
            (current.0, current.1, (current.2 + 1) as u64, Seq::empty(), Seq::empty())
        } else {
            next
        },
        _ => if next.0 > current.0 {
            (current.0, (current.1 + 1) as u64, 0, Seq::empty(), Seq::empty())
        } else {
            next
        },
    }
}

/// Caps `next` to what a maintenance branch allows.
pub fn cap_to_maintenance(current: &Version, next: Version, range: Option<MaintenanceRange>) -> (res: Version)
    requires
        current.bumpable(),
    ensures
        res.parts() == capped_spec(current.parts(), next.parts(), range),
        next.wf() ==> res.wf(),
{
    match range {
        Some(MaintenanceRange::MajorMinor(_, _)) => {
            if next.major > current.major || next.minor > current.minor {
                Version::new(current.major, current.minor, current.patch + 1)
            } else {
                next
            }
        },
        _ => {
            if next.major > current.major {
                Version::new(current.major, current.minor + 1, 0)
            } else {
                next
            }
        },
    }
}

// ---------------------------------------------------------------------------
// Next versions
// ---------------------------------------------------------------------------

/// Why a next version could not be computed.
#[derive(Debug, Clone, PartialEq, Eq)]
pub enum VersionError {
    /// git-cliff could not compute the next version.
    NextVersion,
    /// The channel does not give a valid prerelease identifier.
    InvalidPrerelease,
}

/// What git-cliff's `Release::calculate_next_version` returns (its version
/// string, `None` on error) for a release whose previous version has the
/// parts `previous` and whose commits have the given ids and messages.
pub uninterp spec fn cliff_next_version_of(previous: VersionParts, ids: Seq<Seq<char>>, messages: Seq<Seq<char>>) -> Option<Seq<char>>;

/// The last dot-separated identifier of a prerelease is the number
/// `u32::MAX`, the highest counter git-cliff's prerelease step can increment.
pub open spec fn prerelease_counter_at_limit(pre: Seq<char>) -> bool {
    prerelease_number(pre) == 4294967295
}

/// git-cliff's `Release::calculate_next_version` with default bump rules on a
/// release of the given commits after `previous` (handed over as a
/// `semver::Version` of its parts). The contract claims that the result is
/// the one `cliff_next_version_of` names, and that it never goes back:
/// next_version keeps the version without commits, keeps major, minor and
/// patch when it counts a prerelease up, and otherwise raises one of them. With commits and a prerelease
/// git-cliff increments the prerelease's last identifier as a `u32`, and with
/// commits and no prerelease it adds one to a part: `requires` leaves out the
/// inputs on which that addition overflows.
#[verifier::external_body]
fn cliff_next_version(previous: &Version, ids: &Vec<String>, messages: &Vec<String>) -> (res: Option<String>)
    requires
        previous.wf(),
        previous.bumpable(),
        ids.len() == messages.len(),
        ids.len() > 0 ==> !prerelease_counter_at_limit(previous.pre@),
    ensures
        opt_view(res) == cliff_next_version_of(previous.parts(), views(ids@), views(messages@)),
        res matches Some(t) ==> (semver_parse_of(t@) matches Some(p) ==> !core_lt(p, previous.parts())),
{
    let v = semver::Version { major: previous.major, minor: previous.minor, patch: previous.patch,
        pre: Prerelease::new(&previous.pre).unwrap_or_default(),
        build: BuildMetadata::new(&previous.build).unwrap_or_default() };
    let commits = ids.iter().zip(messages.iter()).map(|(i, m)|
        git_cliff_core::commit::Commit::new(i.clone(), m.clone())).collect();
    let previous = git_cliff_core::release::Release { version: Some(v.to_string()), ..Default::default() };
    let release = git_cliff_core::release::Release {
        version: None, commits, previous: Some(Box::new(previous)), ..Default::default() };
    release.calculate_next_version().ok().map(|n| n.version)
}

/// The ids and raw messages handed to git-cliff for `commits`.
pub fn cliff_inputs(commits: &Vec<ConventionalCommit>) -> (res: (Vec<String>, Vec<String>))
    ensures
        res.0@.len() == commits@.len(),
        res.1@.len() == commits@.len(),
        views(res.0@) == keys(commits@).map_values(|k: CommitKey| k.0),
        views(res.1@) == keys(commits@).map_values(|k: CommitKey| k.1),
{
    let mut ids: Vec<String> = Vec::new();
    let mut msgs: Vec<String> = Vec::new();
    let mut i: usize = 0;
    while i < commits.len()
        invariant
            i <= commits.len(),
            ids@.len() == i,
            msgs@.len() == i,
            views(ids@) =~= keys(commits@.take(i as int)).map_values(|k: CommitKey| k.0),
            views(msgs@) =~= keys(commits@.take(i as int)).map_values(|k: CommitKey| k.1),
        decreases commits.len() - i,
    {
        let c = &commits[i];
        let id = match &c.oid {
            Some(o) => o.clone(),
            None => c.hash.clone(),
        };
        let ghost ids0 = ids@;
        let ghost msgs0 = msgs@;
        ids.push(id);
        msgs.push(c.raw_message.clone());
        assert(views(ids@) =~= views(ids0).push(cliff_id(commits@[i as int])));
        assert(views(msgs@) =~= views(msgs0).push(commits@[i as int].raw_message@));
        i = i + 1;
        assert(commits@.take(i as int) =~= commits@.take(i - 1).push(commits@[i - 1]));
    }
    assert(commits@.take(commits.len() as int) =~= commits@);
    (ids, msgs)
}

/// The stable next version once git-cliff has answered: its version when
/// `semver` parses it, else the highest commit bump applied directly; an
/// error when git-cliff failed.
pub open spec fn stable_from_spec(current: VersionParts, commits: Seq<CommitKey>, answer: Option<Seq<char>>) -> Result<VersionParts, VersionError> {
    match answer {
        None => Err(VersionError::NextVersion),
        Some(text) => match semver_parse_of(text) {
            Some(p) => Ok(p),
            None => Ok(bumped(current, max_bump(commits))),
        },
    }
}

pub open spec fn res_parts(r: Result<Version, VersionError>) -> Result<VersionParts, VersionError> {
    match r {
        Ok(v) => Ok(v.parts()),
        Err(e) => Err(e),
    }
}

pub open spec fn res_wf(r: Result<Version, VersionError>) -> bool {
    r matches Ok(v) ==> v.wf()
}

/// The stable next version from git-cliff's answer `answer` for `commits`.
pub fn stable_version_from(current: &Version, commits: &Vec<ConventionalCommit>, answer: Option<String>) -> (res: Result<Version, VersionError>)
    requires
        current.bumpable(),
    ensures
        res_parts(res) == stable_from_spec(current.parts(), keys(commits@), opt_view(answer)),
        current.wf() ==> res_wf(res),
{
    match answer {
        None => Err(VersionError::NextVersion),
        Some(text) => match Version::parse(text.as_str()) {
            Some(v) => Ok(v),
            None => Ok(apply_bump_fallback(current, commits)),
        },
    }
}

/// The stable next version of `current` for `commits`, computed by git-cliff.
pub open spec fn stable_spec(current: VersionParts, commits: Seq<CommitKey>) -> Result<VersionParts, VersionError> {
    stable_from_spec(
        current,
        commits,
        cliff_next_version_of(
            current,
            commits.map_values(|k: CommitKey| k.0),
            commits.map_values(|k: CommitKey| k.1),
        ),
    )
}

/// The next stable version of `current` for `commits`, as git-cliff computes
/// it from the conventional commits.
pub fn calculate_stable_version(current: &Version, commits: &Vec<ConventionalCommit>) -> (res: Result<Version, VersionError>)
    requires
        current.wf(),
        current.bumpable(),
        commits@.len() > 0 ==> !prerelease_counter_at_limit(current.pre@),
    ensures
        res_parts(res) == stable_spec(current.parts(), keys(commits@)),
        res_wf(res),
        res matches Ok(v) ==> !core_lt(v.parts(), current.parts()),
{
    let (ids, msgs) = cliff_inputs(commits);
    let answer = cliff_next_version(current, &ids, &msgs);
    proof {
        let b = max_bump(keys(commits@));
        if b != BumpLevel::NoBump {
            law_bump_moves_forward(current.parts(), b);
        }
    }
    stable_version_from(current, commits, answer)
}

/// The next version on a maintenance branch: the stable one, capped.
pub open spec fn maintenance_spec(current: VersionParts, commits: Seq<CommitKey>, range: Option<MaintenanceRange>) -> Result<VersionParts, VersionError> {
    match stable_spec(current, commits) {
        Ok(p) => Ok(capped_spec(current, p, range)),
        Err(e) => Err(e),
    }
}

/// The next version of `current` on a maintenance branch with `range`.
pub fn calculate_maintenance_version(current: &Version, commits: &Vec<ConventionalCommit>, range: Option<MaintenanceRange>) -> (res: Result<Version, VersionError>)
    requires
        current.wf(),
        current.bumpable(),
        commits@.len() > 0 ==> !prerelease_counter_at_limit(current.pre@),
    ensures
        res_parts(res) == maintenance_spec(current.parts(), keys(commits@), range),
        res_wf(res),
        res matches Ok(v) ==> match range {
            Some(r) => parts_in_range(current.parts(), r) ==> parts_in_range(v.parts(), r) && !core_lt(
                v.parts(),
                current.parts(),
            ),
            None => true,
        },
{
    let next = calculate_stable_version(current, commits)?;
    proof {
        if let Some(r) = range {
            if parts_in_range(current.parts(), r) {
                law_cap_stays_in_range(current.parts(), next.parts(), r);
            }
        }
    }
    Ok(cap_to_maintenance(current, next, range))
}

/// The prerelease text `<channel>.<n>`.
pub open spec fn channel_pre(channel: Seq<char>, n: nat) -> Seq<char> {
    channel + seq!['.'] + decimal(n)
}

/// A version with the given prerelease and no build metadata.
pub open spec fn with_pre(v: VersionParts, pre: Seq<char>) -> VersionParts {
    (v.0, v.1, v.2, pre, Seq::empty())
}

/// The next prerelease on `channel`: on the same channel the number goes up
/// by one (build metadata dropped); otherwise the stable next version of the
/// `major.minor.patch` base gets `<channel>.1`.
pub open spec fn prerelease_next_spec(current: VersionParts, commits: Seq<CommitKey>, channel: Seq<char>) -> Result<VersionParts, VersionError> {
    if prerelease_channel(current.3) == Some(channel) {
        let text = channel_pre(channel, (prerelease_number(current.3) + 1) as nat);
        if prerelease_valid(text) {
            Ok(with_pre(current, text))
        } else {
            Err(VersionError::InvalidPrerelease)
        }
    } else {
        let base = (current.0, current.1, current.2, Seq::<char>::empty(), Seq::<char>::empty());
        match stable_spec(base, commits) {
            Ok(next) => {
                let text = channel_pre(channel, 1);
                if prerelease_valid(text) {
                    Ok((next.0, next.1, next.2, text, next.4))
                } else {
                    Err(VersionError::InvalidPrerelease)
                }
            },
            Err(e) => Err(e),
        }
    }
}

/// The prerelease number can be incremented when the version is on `channel`.
pub open spec fn prerelease_room(current: Version, channel: Seq<char>) -> bool {
    prerelease_channel(current.pre@) == Some(channel) ==> prerelease_number(current.pre@) < u64::MAX
}

/// The text `<channel>.<n>`.
fn channel_pre_text(channel: &str, n: u64) -> (res: String)
    ensures
        res@ == channel_pre(channel@, n as nat),
{
    let mut v = chars_of(channel);
    v.push('.');
    push_decimal(&mut v, n);
    assert(v@ =~= channel_pre(channel@, n as nat));
    string_from(&v)
}

/// The next version of `current` on prerelease channel `channel`.
pub fn calculate_prerelease_version(current: &Version, commits: &Vec<ConventionalCommit>, channel: &str) -> (res: Result<Version, VersionError>)
    requires
        current.bumpable(),
        prerelease_room(*current, channel@),
    ensures
        res_parts(res) == prerelease_next_spec(current.parts(), keys(commits@), channel@),
        res_wf(res),
{
    let cur_channel = extract_prerelease_channel(current);
    let on_channel = match &cur_channel {
        Some(c) => str_eq(c.as_str(), channel),
        None => false,
    };
    if on_channel {
        let n = extract_prerelease_number(current);
        let text = channel_pre_text(channel, n + 1);
        match prerelease_new(text.as_str()) {
            Some(pre) => Ok(
                Version {
                    major: current.major,
                    minor: current.minor,
                    patch: current.patch,
                    pre,
                    build: String::new(),
                },
            ),
            None => Err(VersionError::InvalidPrerelease),
        }
    } else {
        let base = Version::new(current.major, current.minor, current.patch);
        assert(base.parts() == (current.major, current.minor, current.patch, Seq::<char>::empty(), Seq::<char>::empty()));
        let next = calculate_stable_version(&base, commits)?;
        let text = channel_pre_text(channel, 1);
        match prerelease_new(text.as_str()) {
            Some(pre) => Ok(
                Version { major: next.major, minor: next.minor, patch: next.patch, pre, build: next.build },
            ),
            None => Err(VersionError::InvalidPrerelease),
        }
    }
}

/// A prerelease `<channel>.<n>` of a channel that is itself a valid,
/// non-empty prerelease is valid: the counter is a number without a leading
/// zero.
pub proof fn law_channel_prerelease_valid(channel: Seq<char>, n: nat)
    requires
        channel.len() > 0,
        prerelease_valid(channel),
    ensures
        prerelease_valid(channel_pre(channel, n)),
{
    let d = decimal(n);
    crate::text::lemma_decimal_digits(n);
    assert forall|j: int| 0 <= j < d.len() implies d[j] != '.' by {
        assert(crate::text::is_ascii_digit(d[j]));
    }
    crate::text::lemma_split_char_append(channel, '.', d);
    let parts = split_char(channel_pre(channel, n), '.');
    assert(parts == split_char(channel, '.') + seq![d]);
    assert forall|k: int| 0 <= k < parts.len() implies identifier_part_ok(#[trigger] parts[k], true) by {
        if k < split_char(channel, '.').len() {
            assert(parts[k] == split_char(channel, '.')[k]);
        } else {
            assert(parts[k] == d);
            assert forall|i: int| 0 <= i < d.len() implies is_identifier_char(#[trigger] d[i]) by {
                assert(crate::text::is_ascii_digit(d[i]));
            }
        }
    }
}

/// On a channel that is a valid, non-empty prerelease, the next prerelease
/// version is never refused as an invalid prerelease: it is computed, or
/// git-cliff's failure is reported.
pub proof fn law_valid_channel_never_invalid(current: VersionParts, commits: Seq<CommitKey>, channel: Seq<char>)
    requires
        channel.len() > 0,
        prerelease_valid(channel),
    ensures
        prerelease_next_spec(current, commits, channel) != Err::<VersionParts, VersionError>(VersionError::InvalidPrerelease),
{
    law_channel_prerelease_valid(channel, (prerelease_number(current.3) + 1) as nat);
    law_channel_prerelease_valid(channel, 1);
}

/// Whether one dot-separated part follows the identifier grammar.
fn identifier_part_is_ok(part: &Vec<char>, no_leading_zero: bool) -> (res: bool)
    ensures
        res == identifier_part_ok(part@, no_leading_zero),
{
    if part.len() == 0 {
        return false;
    }
    let mut digits_only = true;
    let mut i: usize = 0;
    while i < part.len()
        invariant
            i <= part@.len(),
            forall|j: int| 0 <= j < i ==> is_identifier_char(#[trigger] part@[j]),
            digits_only == (forall|j: int| 0 <= j < i ==> crate::text::is_ascii_digit(#[trigger] part@[j])),
        decreases part@.len() - i,
    {
        let c = part[i];
        if !(('A' <= c && c <= 'Z') || ('a' <= c && c <= 'z') || ('0' <= c && c <= '9') || c == '-') {
            return false;
        }
        if !('0' <= c && c <= '9') {
            digits_only = false;
        }
        i = i + 1;
    }
    !(no_leading_zero && part.len() > 1 && digits_only && part[0] == '0')
}

/// Whether `text` follows semver's identifier grammar.
fn identifier_is_ok(text: &str, no_leading_zero: bool) -> (res: bool)
    ensures
        res == identifier_ok(text@, no_leading_zero),
{
    let t = chars_of(text);
    if t.len() == 0 {
        return true;
    }
    let parts = crate::text::split_chars(&t, '.');
    let ghost pv = parts@.map_values(|p: Vec<char>| p@);
    let mut k: usize = 0;
    while k < parts.len()
        invariant
            k <= parts@.len(),
            text@.len() > 0,
            pv == parts@.map_values(|p: Vec<char>| p@),
            pv == split_char(text@, '.'),
            forall|j: int| 0 <= j < k ==> identifier_part_ok(#[trigger] pv[j], no_leading_zero),
        decreases parts@.len() - k,
    {
        assert(pv[k as int] == parts@[k as int]@);
        if !identifier_part_is_ok(&parts[k], no_leading_zero) {
            assert(!identifier_part_ok(split_char(text@, '.')[k as int], no_leading_zero));
            return false;
        }
        k = k + 1;
    }
    assert forall|j: int| 0 <= j < split_char(text@, '.').len() implies identifier_part_ok(
        #[trigger] split_char(text@, '.')[j],
        no_leading_zero,
    ) by {
        assert(pv[j] == split_char(text@, '.')[j]);
    }
    true
}

impl Version {
    /// Whether the identifiers are ones `semver` accepts.
    pub fn is_wf(&self) -> (res: bool)
        ensures
            res == self.wf(),
    {
        identifier_is_ok(self.pre.as_str(), true) && identifier_is_ok(self.build.as_str(), false)
    }
}

/// The commits that bump anything, in order.
pub open spec fn bumping(commits: Seq<CommitKey>) -> Seq<CommitKey>
    decreases commits.len(),
{
    if commits.len() == 0 {
        Seq::empty()
    } else if commits.last().2 != BumpLevel::NoBump {
        bumping(commits.drop_last()).push(commits.last())
    } else {
        bumping(commits.drop_last())
    }
}

/// The commits of `commits` that bump anything, in order.
pub fn bumping_commits(commits: &Vec<ConventionalCommit>) -> (res: Vec<ConventionalCommit>)
    ensures
        keys(res@) == bumping(keys(commits@)),
{
    let mut out: Vec<ConventionalCommit> = Vec::new();
    let mut i: usize = 0;
    while i < commits.len()
        invariant
            i <= commits.len(),
            keys(out@) == bumping(keys(commits@.take(i as int))),
        decreases commits.len() - i,
    {
        assert(keys(commits@.take((i + 1) as int)).drop_last() =~= keys(commits@.take(i as int)));
        assert(keys(commits@.take((i + 1) as int)).last() == commit_key(commits@[i as int]));
        if commits[i].bump != BumpLevel::NoBump {
            let ghost before = out@;
            let c = commits[i].clone();
            out.push(c);
            assert(keys(out@) =~= keys(before).push(commit_key(commits@[i as int])));
        }
        i = i + 1;
    }
    assert(commits@.take(commits.len() as int) =~= commits@);
    out
}

/// The next version for `commits` on the branch: unchanged when no commit
/// bumps anything, else by the branch kind (prerelease wins over maintenance).
pub open spec fn next_version_spec(current: VersionParts, commits: Seq<CommitKey>, prerelease: Option<Seq<char>>, maintenance: bool, range: Option<MaintenanceRange>) -> Result<VersionParts, VersionError> {
    let b = bumping(commits);
    if b.len() == 0 {
        Ok(current)
    } else {
        match prerelease {
            Some(ch) => prerelease_next_spec(current, b, ch),
            None => if maintenance {
                maintenance_spec(current, b, range)
            } else {
                stable_spec(current, b)
            },
        }
    }
}

pub open spec fn ctx_prerelease(ctx: BranchContext) -> Option<Seq<char>> {
    opt_view(ctx.prerelease)
}

/// What a branch context allows for `current`: a bumpable version, room for
/// the next prerelease number on a prerelease branch, and elsewhere a
/// prerelease counter git-cliff can still increment.
pub open spec fn next_version_ok(current: Version, ctx: BranchContext) -> bool {
    &&& current.bumpable()
    &&& (ctx.prerelease matches Some(ch) ==> prerelease_room(current, ch@))
    &&& (ctx.prerelease is None ==> !prerelease_counter_at_limit(current.pre@))
}

/// Whether the next version of `current` can be computed on the branch: no
/// part is at the largest number, nor the prerelease number on the branch's
/// channel.
pub fn next_version_room(current: &Version, ctx: &BranchContext) -> (res: bool)
    ensures
        res == next_version_ok(*current, *ctx),
{
    let parts_ok = current.major < u64::MAX && current.minor < u64::MAX && current.patch < u64::MAX;
    let channel_ok = match &ctx.prerelease {
        Some(ch) => {
            let on = match extract_prerelease_channel(current) {
                Some(c) => str_eq(c.as_str(), ch.as_str()),
                None => false,
            };
            !on || extract_prerelease_number(current) < u64::MAX
        },
        None => extract_prerelease_number(current) != 4294967295,
    };
    parts_ok && channel_ok
}

/// The next version of `current` for `commits` on the branch `ctx`.
pub fn calculate_next_version(current: &Version, commits: &Vec<ConventionalCommit>, ctx: &BranchContext) -> (res: Result<Version, VersionError>)
    requires
        current.wf(),
        next_version_ok(*current, *ctx),
    ensures
        res_parts(res) == next_version_spec(
            current.parts(),
            keys(commits@),
            ctx_prerelease(*ctx),
            ctx.maintenance,
            ctx.maintenance_range,
        ),
        res_wf(res),
        res matches Ok(v) ==> (ctx.prerelease is None && ctx.maintenance ==> match ctx.maintenance_range {
            Some(r) => parts_in_range(current.parts(), r) ==> parts_in_range(v.parts(), r) && !core_lt(
                v.parts(),
                current.parts(),
            ),
            None => true,
        }),
{
    let bump_commits = bumping_commits(commits);
    if bump_commits.len() == 0 {
        assert(keys(bump_commits@).len() == 0);
        return Ok(current.clone());
    }
    assert(keys(bump_commits@).len() > 0);
    match &ctx.prerelease {
        Some(ch) => calculate_prerelease_version(current, &bump_commits, ch.as_str()),
        None => {
            if ctx.maintenance {
                calculate_maintenance_version(current, &bump_commits, ctx.maintenance_range)
            } else {
                calculate_stable_version(current, &bump_commits)
            }
        },
    }
}

// ---------------------------------------------------------------------------
// Planned releases and their propagation to dependents
// ---------------------------------------------------------------------------

/// The release plan of one package.
#[derive(Debug)]
pub struct PackageRelease {
    pub package_name: String,
    pub current_version: Version,
    pub next_version: Version,
    pub bump: BumpLevel,
    pub commits: Vec<ConventionalCommit>,
    pub is_root: bool,
    /// For a release caused by a dependency update rather than by commits:
    /// the chain of packages that caused it.
    pub propagated_from: Option<String>,
}

impl PackageRelease {
    /// The two releases agree on every field, the commits by their views.
    pub open spec fn same(self, other: PackageRelease) -> bool {
        &&& self.package_name == other.package_name
        &&& self.current_version == other.current_version
        &&& self.next_version == other.next_version
        &&& self.bump == other.bump
        &&& crate::commit::cviews(self.commits@) == crate::commit::cviews(other.commits@)
        &&& self.is_root == other.is_root
        &&& self.propagated_from == other.propagated_from
    }

    /// A copy of the release.
    pub fn duplicate(&self) -> (res: PackageRelease)
        ensures
            res.same(*self),
    {
        let mut commits: Vec<ConventionalCommit> = Vec::new();
        let mut i: usize = 0;
        while i < self.commits.len()
            invariant
                i <= self.commits@.len(),
                crate::commit::cviews(commits@) == crate::commit::cviews(self.commits@).take(i as int),
            decreases self.commits@.len() - i,
        {
            let c = self.commits[i].clone();
            let ghost cv = c@;
            let ghost o0 = commits@;
            commits.push(c);
            assert(crate::commit::cviews(commits@) =~= crate::commit::cviews(o0).push(cv));
            assert(crate::commit::cviews(self.commits@).take((i + 1) as int) =~= crate::commit::cviews(self.commits@).take(i as int).push(self.commits@[i as int]@));
            assert(crate::commit::cviews(commits@) =~= crate::commit::cviews(self.commits@).take((i + 1) as int));
            i = i + 1;
        }
        assert(crate::commit::cviews(self.commits@).take(self.commits@.len() as int) =~= crate::commit::cviews(self.commits@));
        PackageRelease {
            package_name: self.package_name.clone(),
            current_version: self.current_version.clone(),
            next_version: self.next_version.clone(),
            bump: self.bump,
            commits,
            is_root: self.is_root,
            propagated_from: crate::commit::clone_opt_string(&self.propagated_from),
        }
    }
}

/// The key of the commit that stands for a workspace dependency update.
pub open spec fn dependency_update_key() -> CommitKey {
    ("00000000"@, "fix: workspace dependency update"@, BumpLevel::Patch)
}

/// The synthetic `fix: workspace dependency update` commit.
pub fn dependency_update_commit() -> (c: ConventionalCommit)
    ensures
        commit_key(c) == dependency_update_key(),
        c.commit_type@ == "fix"@,
        c.description@ == "workspace dependency update"@,
{
    ConventionalCommit {
        hash: crate::text::owned_string("00000000"),
        oid: None,
        commit_type: crate::text::owned_string("fix"),
        scope: None,
        description: crate::text::owned_string("workspace dependency update"),
        body: None,
        breaking: false,
        bump: BumpLevel::Patch,
        revert: None,
        raw_message: crate::text::owned_string("fix: workspace dependency update"),
        files_changed: Vec::new(),
    }
}

/// The next version of a release caused only by a dependency update: a patch
/// by convention, kept on the channel on a prerelease branch.
pub open spec fn propagated_spec(current: VersionParts, prerelease: Option<Seq<char>>) -> Result<VersionParts, VersionError> {
    match prerelease {
        Some(ch) => prerelease_next_spec(current, seq![dependency_update_key()], ch),
        None => Ok(bumped(current, BumpLevel::Patch)),
    }
}

/// The next version of `current` when only a dependency was updated.
pub fn propagated_next_version(current: &Version, ctx: &BranchContext) -> (res: Result<Version, VersionError>)
    requires
        next_version_ok(*current, *ctx),
        current.wf(),
    ensures
        res_parts(res) == propagated_spec(current.parts(), ctx_prerelease(*ctx)),
        res_wf(res),
{
    match &ctx.prerelease {
        Some(ch) => {
            let mut commits: Vec<ConventionalCommit> = Vec::new();
            commits.push(dependency_update_commit());
            assert(keys(commits@) =~= seq![dependency_update_key()]);
            calculate_prerelease_version(current, &commits, ch.as_str())
        },
        None => Ok(apply_bump(current, BumpLevel::Patch)),
    }
}

/// What a propagated release records: package name, current and next
/// version, whether it is the root package, and the dependency chain.
pub type AddedView = (Seq<char>, VersionParts, VersionParts, bool, Seq<char>);

/// The state of the propagation: releases added, package names handled,
/// the queue of (trigger, chain) pairs, and the first error.
pub struct Propagation {
    pub added: Seq<AddedView>,
    pub released: Seq<Seq<char>>,
    pub queue: Seq<(Seq<char>, Seq<char>)>,
    pub err: Option<VersionError>,
}

/// Package `pkg` has a local dependency named `name`.
pub open spec fn has_local_dep(pkg: Package, name: Seq<char>) -> bool {
    exists|d: int| 0 <= d < pkg.local_dependencies@.len() && (#[trigger] pkg.local_dependencies@[d]).0@ == name
}

/// `chain -> name`.
pub open spec fn extend_chain(chain: Seq<char>, name: Seq<char>) -> Seq<char> {
    chain + seq![' ', '-', '>', ' '] + name
}

/// Handles dependent `i` of a released package reached through `chain`: a
/// package already handled is skipped; outside a maintenance range it is
/// marked handled without a release; otherwise it gets the propagated next
/// version, unless that stable version already exists as a tag (then it is
/// skipped and does not cascade further).
pub open spec fn visit(pkgs: Seq<Package>, infos: Seq<Version>, index: TagIndex, ctx: BranchContext, st: Propagation, i: int, chain: Seq<char>) -> Propagation {
    let name = pkgs[i].name@;
    if st.err is Some || st.released.contains(name) {
        st
    } else if ctx.maintenance && ctx.maintenance_range is Some && !in_range(
        infos[i],
        ctx.maintenance_range.unwrap(),
    ) {
        Propagation { released: st.released.push(name), ..st }
    } else {
        let st1 = Propagation { released: st.released.push(name), ..st };
        match propagated_spec(infos[i].parts(), ctx_prerelease(ctx)) {
            Err(e) => Propagation { err: Some(e), ..st1 },
            Ok(next) => if next.3.len() == 0 && index.exists_spec(name, next) {
                st1
            } else {
                Propagation {
                    added: st1.added.push((name, infos[i].parts(), next, pkgs[i].is_root, chain)),
                    queue: st1.queue.push((name, extend_chain(chain, name))),
                    ..st1
                }
            },
        }
    }
}

/// The dependents among the first `k` packages of the package named
/// `trigger`, visited in order.
pub open spec fn visit_dependents(pkgs: Seq<Package>, infos: Seq<Version>, index: TagIndex, ctx: BranchContext, st: Propagation, trigger: Seq<char>, chain: Seq<char>, k: int) -> Propagation
    decreases k,
{
    if k <= 0 {
        st
    } else {
        let prev = visit_dependents(pkgs, infos, index, ctx, st, trigger, chain, k - 1);
        if has_local_dep(pkgs[k - 1], trigger) {
            visit(pkgs, infos, index, ctx, prev, k - 1, chain)
        } else {
            prev
        }
    }
}

/// The propagation from queue position `qi` on, for at most `fuel` steps.
pub open spec fn propagate_from(pkgs: Seq<Package>, infos: Seq<Version>, index: TagIndex, ctx: BranchContext, st: Propagation, qi: int, fuel: nat) -> Propagation
    decreases fuel,
{
    if fuel == 0 || st.err is Some || qi < 0 || qi >= st.queue.len() {
        st
    } else {
        let (trigger, chain) = st.queue[qi];
        propagate_from(
            pkgs,
            infos,
            index,
            ctx,
            visit_dependents(pkgs, infos, index, ctx, st, trigger, chain, pkgs.len() as int),
            qi + 1,
            (fuel - 1) as nat,
        )
    }
}

pub open spec fn release_names(releases: Seq<PackageRelease>) -> Seq<Seq<char>> {
    releases.map_values(|r: PackageRelease| r.package_name@)
}

/// The propagation that starts from `releases`: each is handled and queued
/// with its own name as chain.
pub open spec fn propagation_spec(pkgs: Seq<Package>, infos: Seq<Version>, index: TagIndex, ctx: BranchContext, names: Seq<Seq<char>>) -> Propagation {
    propagate_from(
        pkgs,
        infos,
        index,
        ctx,
        Propagation {
            added: Seq::empty(),
            released: names,
            queue: names.map_values(|n: Seq<char>| (n, n)),
            err: None,
        },
        0,
        (names.len() + pkgs.len() + 1) as nat,
    )
}

/// The number of packages among the first `k` whose name has been handled.
pub open spec fn handled_count(pkgs: Seq<Package>, released: Seq<Seq<char>>, k: int) -> nat
    decreases k,
{
    if k <= 0 {
        0
    } else {
        handled_count(pkgs, released, k - 1) + if released.contains(pkgs[k - 1].name@) {
            1nat
        } else {
            0nat
        }
    }
}

proof fn lemma_handled_bound(pkgs: Seq<Package>, released: Seq<Seq<char>>, k: int)
    requires
        0 <= k,
    ensures
        handled_count(pkgs, released, k) <= k,
    decreases k,
{
    if k > 0 {
        lemma_handled_bound(pkgs, released, k - 1);
    }
}

proof fn lemma_handled_push(pkgs: Seq<Package>, released: Seq<Seq<char>>, x: Seq<char>, i: int, k: int)
    requires
        0 <= k,
    ensures
        handled_count(pkgs, released.push(x), k) >= handled_count(pkgs, released, k),
        0 <= i < k && x == pkgs[i].name@ && !released.contains(x) ==> handled_count(
            pkgs,
            released.push(x),
            k,
        ) >= handled_count(pkgs, released, k) + 1,
    decreases k,
{
    if k > 0 {
        lemma_handled_push(pkgs, released, x, i, k - 1);
        let n = pkgs[k - 1].name@;
        if released.contains(n) {
            let w = choose|w: int| 0 <= w < released.len() && released[w] == n;
            assert(released.push(x)[w] == n);
        }
        if k - 1 == i && x == pkgs[i].name@ {
            assert(released.push(x)[released.len() as int] == x);
        }
    }
}

proof fn lemma_visit_dependents_err(pkgs: Seq<Package>, infos: Seq<Version>, index: TagIndex, ctx: BranchContext, st: Propagation, trigger: Seq<char>, chain: Seq<char>, k: int, m: int)
    requires
        0 <= k <= m,
        visit_dependents(pkgs, infos, index, ctx, st, trigger, chain, k).err is Some,
    ensures
        visit_dependents(pkgs, infos, index, ctx, st, trigger, chain, m) == visit_dependents(
            pkgs,
            infos,
            index,
            ctx,
            st,
            trigger,
            chain,
            k,
        ),
    decreases m,
{
    if m > k {
        lemma_visit_dependents_err(pkgs, infos, index, ctx, st, trigger, chain, k, m - 1);
    }
}

/// Whether an equal string is in the list.
pub fn contains_string(v: &Vec<String>, s: &str) -> (res: bool)
    ensures
        res == views(v@).contains(s@),
{
    let mut i: usize = 0;
    while i < v.len()
        invariant
            i <= v.len(),
            forall|j: int| 0 <= j < i ==> v@[j]@ != s@,
        decreases v.len() - i,
    {
        if str_eq(v[i].as_str(), s) {
            assert(views(v@)[i as int] == s@);
            return true;
        }
        i = i + 1;
    }
    proof {
        if views(v@).contains(s@) {
            let j = choose|j: int| 0 <= j < views(v@).len() && views(v@)[j] == s@;
            assert(v@[j]@ == s@);
        }
    }
    false
}

pub open spec fn queue_views(q: Seq<(String, String)>) -> Seq<(Seq<char>, Seq<char>)> {
    q.map_values(|e: (String, String)| (e.0@, e.1@))
}

/// Release `r` is the propagated release `a`.
pub open spec fn added_matches(r: PackageRelease, a: AddedView) -> bool {
    &&& r.package_name@ == a.0
    &&& r.current_version.parts() == a.1
    &&& r.next_version.parts() == a.2
    &&& r.is_root == a.3
    &&& r.propagated_from matches Some(c) && c@ == a.4
    &&& r.bump == BumpLevel::Patch
    &&& r.commits@.len() == 0
    &&& r.next_version.wf()
}

/// `releases` is `base` followed by the propagated releases `added`.
pub open spec fn extends_with(releases: Seq<PackageRelease>, base: Seq<PackageRelease>, added: Seq<AddedView>) -> bool {
    &&& releases.len() == base.len() + added.len()
    &&& forall|j: int| 0 <= j < base.len() ==> releases[j] == base[j]
    &&& forall|j: int| 0 <= j < added.len() ==> added_matches(#[trigger] releases[base.len() + j], added[j])
}

/// What the propagation needs of the packages' current versions.
pub open spec fn propagation_ok(pkgs: Seq<Package>, infos: Seq<Version>, ctx: BranchContext) -> bool {
    &&& infos.len() == pkgs.len()
    &&& forall|i: int| 0 <= i < infos.len() ==> (#[trigger] infos[i]).wf() && next_version_ok(infos[i], ctx)
}

/// Whether package `pkg` has a local dependency named `name`.
fn has_dependency(pkg: &Package, name: &str) -> (res: bool)
    ensures
        res == has_local_dep(*pkg, name@),
{
    let mut d: usize = 0;
    while d < pkg.local_dependencies.len()
        invariant
            d <= pkg.local_dependencies@.len(),
            forall|e: int| 0 <= e < d ==> (#[trigger] pkg.local_dependencies@[e]).0@ != name@,
        decreases pkg.local_dependencies@.len() - d,
    {
        if str_eq(pkg.local_dependencies[d].0.as_str(), name) {
            return true;
        }
        d = d + 1;
    }
    false
}

/// One step of the propagation: `visit` on the executable state.
#[verifier::rlimit(30)]
fn visit_exec(
    releases: &mut Vec<PackageRelease>,
    released: &mut Vec<String>,
    queue: &mut Vec<(String, String)>,
    packages: &[Package],
    infos: &Vec<Version>,
    index: &TagIndex,
    ctx: &BranchContext,
    k: usize,
    chain: &String,
    Ghost(base): Ghost<Seq<PackageRelease>>,
    Ghost(st): Ghost<Propagation>,
) -> (res: Result<(), VersionError>)
    requires
        propagation_ok(packages@, infos@, *ctx),
        k < packages@.len(),
        st.err is None,
        views(old(released)@) == st.released,
        queue_views(old(queue)@) == st.queue,
        extends_with(old(releases)@, base, st.added),
    ensures
        ({
            let st2 = visit(packages@, infos@, *index, *ctx, st, k as int, chain@);
            match res {
                Ok(()) => {
                    &&& st2.err is None
                    &&& views(final(released)@) == st2.released
                    &&& queue_views(final(queue)@) == st2.queue
                    &&& extends_with(final(releases)@, base, st2.added)
                    &&& st2.queue.len() + handled_count(packages@, st.released, packages@.len() as int)
                        <= st.queue.len() + handled_count(packages@, st2.released, packages@.len() as int)
                    &&& handled_count(packages@, st2.released, packages@.len() as int) <= packages@.len()
                },
                Err(e) => st2.err == Some(e),
            }
        }),
{
    let ghost pk = packages@;
    let pkg = &packages[k];
    let name = pkg.name.as_str();
    proof {
        lemma_handled_bound(pk, st.released, pk.len() as int);
        lemma_handled_push(pk, st.released, name@, k as int, pk.len() as int);
        lemma_handled_bound(pk, st.released.push(name@), pk.len() as int);
    }
    if contains_string(released, name) {
        return Ok(());
    }
    let ghost rv = released@;
    released.push(pkg.name.clone());
    assert(views(released@) =~= views(rv).push(name@));
    let skip = match &ctx.maintenance_range {
        Some(range) => ctx.maintenance && !version_in_maintenance_range(&infos[k], range),
        None => false,
    };
    if skip {
        return Ok(());
    }
    let ghost st1 = Propagation { released: st.released.push(name@), ..st };
    assert(infos@[k as int].wf() && next_version_ok(infos@[k as int], *ctx));
    let next = propagated_next_version(&infos[k], ctx)?;
    if !next.is_prerelease() && index.version_exists(name, &next) {
        return Ok(());
    }
    let mut nc = chars_of(chain.as_str());
    crate::text::append_str(&mut nc, " -> ");
    crate::text::append_str(&mut nc, name);
    proof {
        reveal_strlit(" -> ");
        assert(nc@ =~= extend_chain(chain@, name@));
    }
    let ghost qv = queue@;
    queue.push((pkg.name.clone(), string_from(&nc)));
    assert(queue_views(queue@) =~= queue_views(qv).push((name@, extend_chain(chain@, name@))));
    let ghost relv = releases@;
    let ghost av = (name@, infos@[k as int].parts(), next.parts(), pkg.is_root, chain@);
    releases.push(
        PackageRelease {
            package_name: pkg.name.clone(),
            current_version: infos[k].clone(),
            next_version: next,
            bump: BumpLevel::Patch,
            commits: Vec::new(),
            is_root: pkg.is_root,
            propagated_from: Some(chain.clone()),
        },
    );
    proof {
        let st2 = visit(pk, infos@, *index, *ctx, st, k as int, chain@);
        assert(st2.added == st1.added.push(av));
        assert forall|j: int| 0 <= j < st2.added.len() implies added_matches(
            #[trigger] releases@[base.len() + j],
            st2.added[j],
        ) by {
            if j < st1.added.len() {
                assert(releases@[base.len() + j] == relv[base.len() + j]);
            }
        }
        assert forall|j: int| 0 <= j < base.len() implies releases@[j] == base[j] by {
            assert(releases@[j] == relv[j]);
        }
    }
    Ok(())
}

/// Propagates releases through the reverse dependency graph, breadth first:
/// every package that depends on a released package is released too (a patch,
/// or the next prerelease on the channel), once, with the chain of packages
/// that caused it; packages outside a maintenance range, and dependents whose
/// next stable version already exists as a tag, are skipped and do not
/// cascade further.
pub fn propagate_to_dependents(releases: &mut Vec<PackageRelease>, packages: &[Package], infos: &Vec<Version>, index: &TagIndex, ctx: &BranchContext) -> (res: Result<(), VersionError>)
    requires
        propagation_ok(packages@, infos@, *ctx),
    ensures
        ({
            let p = propagation_spec(packages@, infos@, *index, *ctx, release_names(old(releases)@));
            match res {
                Ok(()) => p.err is None && extends_with(final(releases)@, old(releases)@, p.added),
                Err(e) => p.err == Some(e),
            }
        }),
{
    let ghost base = releases@;
    let ghost pk = packages@;
    let ghost rs = base.len();
    let ghost fuel_total: nat = (base.len() + pk.len() + 1) as nat;
    let ghost target = propagation_spec(pk, infos@, *index, *ctx, release_names(base));
    let mut released: Vec<String> = Vec::new();
    let mut queue: Vec<(String, String)> = Vec::new();
    let mut r: usize = 0;
    while r < releases.len()
        invariant
            r <= releases@.len(),
            releases@ == base,
            base == old(releases)@,
            views(released@) == release_names(base).take(r as int),
            queue_views(queue@) == release_names(base).take(r as int).map_values(
                |n: Seq<char>| (n, n),
            ),
        decreases releases@.len() - r,
    {
        let n1 = releases[r].package_name.clone();
        let n2 = releases[r].package_name.clone();
        let n3 = releases[r].package_name.clone();
        let ghost rv = released@;
        let ghost qv = queue@;
        released.push(n1);
        queue.push((n2, n3));
        assert(views(released@) =~= views(rv).push(base[r as int].package_name@));
        assert(queue_views(queue@) =~= queue_views(qv).push(
            (base[r as int].package_name@, base[r as int].package_name@),
        ));
        r = r + 1;
        assert(release_names(base).take(r as int) =~= release_names(base).take(r - 1).push(
            base[r - 1].package_name@,
        ));
    }
    assert(release_names(base).take(r as int) =~= release_names(base));
    let ghost mut st = Propagation {
        added: Seq::empty(),
        released: release_names(base),
        queue: release_names(base).map_values(|n: Seq<char>| (n, n)),
        err: None,
    };
    proof {
        lemma_handled_bound(pk, st.released, pk.len() as int);
    }
    let mut qi: usize = 0;
    while qi < queue.len()
        invariant
            pk == packages@,
            propagation_ok(pk, infos@, *ctx),
            fuel_total == base.len() + pk.len() + 1,
            qi <= queue@.len(),
            st.err is None,
            views(released@) == st.released,
            queue_views(queue@) == st.queue,
            st.queue.len() <= rs + handled_count(pk, st.released, pk.len() as int),
            handled_count(pk, st.released, pk.len() as int) <= pk.len(),
            extends_with(releases@, base, st.added),
            rs == base.len(),
            base == old(releases)@,
            target == propagation_spec(pk, infos@, *index, *ctx, release_names(base)),
            propagate_from(pk, infos@, *index, *ctx, st, qi as int, (fuel_total - qi) as nat)
                == target,
        decreases (rs + pk.len()) - qi,
    {
        let trigger = queue[qi].0.clone();
        let chain = queue[qi].1.clone();
        assert(st.queue[qi as int] == (trigger@, chain@));
        let ghost st0 = st;
        let mut k: usize = 0;
        while k < packages.len()
            invariant
                pk == packages@,
                propagation_ok(pk, infos@, *ctx),
                k <= pk.len(),
                st.err is None,
                st == visit_dependents(pk, infos@, *index, *ctx, st0, trigger@, chain@, k as int),
                views(released@) == st.released,
                queue_views(queue@) == st.queue,
                st.queue.len() + handled_count(pk, st0.released, pk.len() as int) <= st0.queue.len()
                    + handled_count(pk, st.released, pk.len() as int),
                handled_count(pk, st.released, pk.len() as int) <= pk.len(),
                extends_with(releases@, base, st.added),
                rs == base.len(),
                base == old(releases)@,
                target == propagation_spec(pk, infos@, *index, *ctx, release_names(base)),
                st.queue.len() >= st0.queue.len(),
                qi < st0.queue.len() <= rs + pk.len(),
                st0.queue[qi as int] == (trigger@, chain@),
                fuel_total == base.len() + pk.len() + 1,
                st0.err is None,
                propagate_from(pk, infos@, *index, *ctx, st0, qi as int, (fuel_total - qi) as nat)
                    == target,
            decreases pk.len() - k,
        {
            if has_dependency(&packages[k], trigger.as_str()) {
                let ghost before = st;
                let step = visit_exec(
                    releases,
                    &mut released,
                    &mut queue,
                    packages,
                    infos,
                    index,
                    ctx,
                    k,
                    &chain,
                    Ghost(base),
                    Ghost(before),
                );
                proof {
                    st = visit(pk, infos@, *index, *ctx, before, k as int, chain@);
                }
                match step {
                    Ok(()) => {},
                    Err(e) => {
                        proof {
                            assert(st == visit_dependents(pk, infos@, *index, *ctx, st0, trigger@, chain@, k + 1));
                            assert(st.err == Some(e));
                            lemma_visit_dependents_err(pk, infos@, *index, *ctx, st0, trigger@, chain@, k + 1, pk.len() as int);
                            let fin = visit_dependents(pk, infos@, *index, *ctx, st0, trigger@, chain@, pk.len() as int);
                            assert(fin == st);
                            assert(propagate_from(pk, infos@, *index, *ctx, st0, qi as int, (fuel_total - qi) as nat)
                                == propagate_from(pk, infos@, *index, *ctx, fin, qi + 1, (fuel_total - qi - 1) as nat));
                            assert(propagate_from(pk, infos@, *index, *ctx, fin, qi + 1, (fuel_total - qi - 1) as nat) == fin);
                            assert(target.err == Some(e));
                        }
                        return Err(e);
                    },
                }
            }
            k = k + 1;
        }
        qi = qi + 1;
    }
    Ok(())
}

// ---------------------------------------------------------------------------
// Prerelease branches stay on their channel
// ---------------------------------------------------------------------------

proof fn lemma_channel_pre_matches(channel: Seq<char>, n: nat)
    ensures
        matches_channel(channel_pre(channel, n), channel),
{
    assert((channel + seq!['.']).is_prefix_of(channel_pre(channel, n))) by {
        assert(channel_pre(channel, n).take((channel.len() + 1) as int) =~= channel + seq!['.']);
    }
}

/// A next prerelease version is always on the channel it was computed for.
pub proof fn law_prerelease_next_on_channel(current: VersionParts, commits: Seq<CommitKey>, channel: Seq<char>)
    ensures
        prerelease_next_spec(current, commits, channel) matches Ok(p) ==> matches_channel(p.3, channel),
{
    lemma_channel_pre_matches(channel, 1);
    lemma_channel_pre_matches(channel, (prerelease_number(current.3) + 1) as nat);
}

/// What the propagation adds on a prerelease branch is on its channel.
pub open spec fn added_on_channel(added: Seq<AddedView>, channel: Seq<char>) -> bool {
    forall|j: int| 0 <= j < added.len() ==> matches_channel((#[trigger] added[j]).2.3, channel)
}

proof fn lemma_visit_on_channel(pkgs: Seq<Package>, infos: Seq<Version>, index: TagIndex, ctx: BranchContext, st: Propagation, i: int, chain: Seq<char>, ch: Seq<char>)
    requires
        ctx_prerelease(ctx) == Some(ch),
        added_on_channel(st.added, ch),
    ensures
        added_on_channel(visit(pkgs, infos, index, ctx, st, i, chain).added, ch),
{
    law_prerelease_next_on_channel(infos[i].parts(), seq![dependency_update_key()], ch);
    let r = visit(pkgs, infos, index, ctx, st, i, chain);
    assert forall|j: int| 0 <= j < r.added.len() implies matches_channel((#[trigger] r.added[j]).2.3, ch) by {
        if j < st.added.len() {
            assert(r.added[j] == st.added[j]);
        }
    }
}

proof fn lemma_visit_dependents_on_channel(pkgs: Seq<Package>, infos: Seq<Version>, index: TagIndex, ctx: BranchContext, st: Propagation, trigger: Seq<char>, chain: Seq<char>, k: int, ch: Seq<char>)
    requires
        ctx_prerelease(ctx) == Some(ch),
        added_on_channel(st.added, ch),
    ensures
        added_on_channel(visit_dependents(pkgs, infos, index, ctx, st, trigger, chain, k).added, ch),
    decreases k,
{
    if k > 0 {
        lemma_visit_dependents_on_channel(pkgs, infos, index, ctx, st, trigger, chain, k - 1, ch);
        let prev = visit_dependents(pkgs, infos, index, ctx, st, trigger, chain, k - 1);
        lemma_visit_on_channel(pkgs, infos, index, ctx, prev, k - 1, chain, ch);
    }
}

proof fn lemma_propagate_from_on_channel(pkgs: Seq<Package>, infos: Seq<Version>, index: TagIndex, ctx: BranchContext, st: Propagation, qi: int, fuel: nat, ch: Seq<char>)
    requires
        ctx_prerelease(ctx) == Some(ch),
        added_on_channel(st.added, ch),
    ensures
        added_on_channel(propagate_from(pkgs, infos, index, ctx, st, qi, fuel).added, ch),
    decreases fuel,
{
    if !(fuel == 0 || st.err is Some || qi < 0 || qi >= st.queue.len()) {
        let (trigger, chain) = st.queue[qi];
        lemma_visit_dependents_on_channel(pkgs, infos, index, ctx, st, trigger, chain, pkgs.len() as int, ch);
        let next = visit_dependents(pkgs, infos, index, ctx, st, trigger, chain, pkgs.len() as int);
        lemma_propagate_from_on_channel(pkgs, infos, index, ctx, next, qi + 1, (fuel - 1) as nat, ch);
    }
}

/// On a prerelease branch, every release the propagation adds is on the
/// branch's channel.
pub proof fn law_propagation_on_channel(pkgs: Seq<Package>, infos: Seq<Version>, index: TagIndex, ctx: BranchContext, names: Seq<Seq<char>>, ch: Seq<char>)
    requires
        ctx_prerelease(ctx) == Some(ch),
    ensures
        added_on_channel(propagation_spec(pkgs, infos, index, ctx, names).added, ch),
{
    lemma_propagate_from_on_channel(
        pkgs,
        infos,
        index,
        ctx,
        Propagation {
            added: Seq::empty(),
            released: names,
            queue: names.map_values(|n: Seq<char>| (n, n)),
            err: None,
        },
        0,
        (names.len() + pkgs.len() + 1) as nat,
        ch,
    );
}

// ---------------------------------------------------------------------------
// Laws
// ---------------------------------------------------------------------------

/// `a` comes before `b` by major, then minor, then patch.
pub open spec fn core_lt(a: VersionParts, b: VersionParts) -> bool {
    a.0 < b.0 || (a.0 == b.0 && (a.1 < b.1 || (a.1 == b.1 && a.2 < b.2)))
}

/// Any bump other than `NoBump` moves a version strictly forward.
pub proof fn law_bump_moves_forward(v: VersionParts, b: BumpLevel)
    requires
        v.0 < u64::MAX,
        v.1 < u64::MAX,
        v.2 < u64::MAX,
        b != BumpLevel::NoBump,
    ensures
        core_lt(v, bumped(v, b)),
{
}

/// Classifying the move that a bump makes gives the bump back, except that a
/// breaking change on a `0.x` version is a minor move (a version with a
/// prerelease is only left unchanged by `NoBump`, which counts as a move).
pub proof fn law_classify_undoes_bump(v: VersionParts, b: BumpLevel)
    requires
        v.0 < u64::MAX,
        v.1 < u64::MAX,
        v.2 < u64::MAX,
        b != BumpLevel::NoBump || v.3.len() == 0,
    ensures
        classify_spec(v, bumped(v, b)) == (if b == BumpLevel::Major && v.0 == 0 {
            BumpLevel::Minor
        } else {
            b
        }),
{
}

pub open spec fn parts_in_range(p: VersionParts, range: MaintenanceRange) -> bool {
    match range {
        MaintenanceRange::Major(m) => p.0 == m,
        MaintenanceRange::MajorMinor(m, n) => p.0 == m && p.1 == n,
    }
}

/// What the propagation adds on a maintenance branch starts inside its range.
pub open spec fn added_in_range(added: Seq<AddedView>, range: MaintenanceRange) -> bool {
    forall|j: int| 0 <= j < added.len() ==> parts_in_range((#[trigger] added[j]).1, range)
}

proof fn lemma_visit_in_range(pkgs: Seq<Package>, infos: Seq<Version>, index: TagIndex, ctx: BranchContext, st: Propagation, i: int, chain: Seq<char>, range: MaintenanceRange)
    requires
        ctx.maintenance,
        ctx.maintenance_range == Some(range),
        added_in_range(st.added, range),
    ensures
        added_in_range(visit(pkgs, infos, index, ctx, st, i, chain).added, range),
{
    let r = visit(pkgs, infos, index, ctx, st, i, chain);
    assert forall|j: int| 0 <= j < r.added.len() implies parts_in_range((#[trigger] r.added[j]).1, range) by {
        if j < st.added.len() {
            assert(r.added[j] == st.added[j]);
        }
    }
}

proof fn lemma_visit_dependents_in_range(pkgs: Seq<Package>, infos: Seq<Version>, index: TagIndex, ctx: BranchContext, st: Propagation, trigger: Seq<char>, chain: Seq<char>, k: int, range: MaintenanceRange)
    requires
        ctx.maintenance,
        ctx.maintenance_range == Some(range),
        added_in_range(st.added, range),
    ensures
        added_in_range(visit_dependents(pkgs, infos, index, ctx, st, trigger, chain, k).added, range),
    decreases k,
{
    if k > 0 {
        lemma_visit_dependents_in_range(pkgs, infos, index, ctx, st, trigger, chain, k - 1, range);
        let prev = visit_dependents(pkgs, infos, index, ctx, st, trigger, chain, k - 1);
        lemma_visit_in_range(pkgs, infos, index, ctx, prev, k - 1, chain, range);
    }
}

proof fn lemma_propagate_from_in_range(pkgs: Seq<Package>, infos: Seq<Version>, index: TagIndex, ctx: BranchContext, st: Propagation, qi: int, fuel: nat, range: MaintenanceRange)
    requires
        ctx.maintenance,
        ctx.maintenance_range == Some(range),
        added_in_range(st.added, range),
    ensures
        added_in_range(propagate_from(pkgs, infos, index, ctx, st, qi, fuel).added, range),
    decreases fuel,
{
    if !(fuel == 0 || st.err is Some || qi < 0 || qi >= st.queue.len()) {
        let (trigger, chain) = st.queue[qi];
        lemma_visit_dependents_in_range(pkgs, infos, index, ctx, st, trigger, chain, pkgs.len() as int, range);
        let next = visit_dependents(pkgs, infos, index, ctx, st, trigger, chain, pkgs.len() as int);
        lemma_propagate_from_in_range(pkgs, infos, index, ctx, next, qi + 1, (fuel - 1) as nat, range);
    }
}

/// On a maintenance branch with a range, every release the propagation adds
/// is of a package whose current version lies inside the range: dependents
/// outside it get no cascaded release.
pub proof fn law_propagation_stays_in_range(pkgs: Seq<Package>, infos: Seq<Version>, index: TagIndex, ctx: BranchContext, names: Seq<Seq<char>>, range: MaintenanceRange)
    requires
        ctx.maintenance,
        ctx.maintenance_range == Some(range),
    ensures
        added_in_range(propagation_spec(pkgs, infos, index, ctx, names).added, range),
{
    lemma_propagate_from_in_range(
        pkgs,
        infos,
        index,
        ctx,
        Propagation {
            added: Seq::empty(),
            released: names,
            queue: names.map_values(|n: Seq<char>| (n, n)),
            err: None,
        },
        0,
        (names.len() + pkgs.len() + 1) as nat,
        range,
    );
}

/// Every move is a bump: a next version with a prerelease, or one whose
/// major, minor or patch is higher, is never classified `NoBump`. A move to
/// a prerelease is a minor or patch bump, and counting up a prerelease on the
/// same channel without raising the major is a patch bump.
pub proof fn law_moves_are_bumps(current: VersionParts, next: VersionParts)
    ensures
        (next.3.len() > 0 || core_lt(current, next)) ==> classify_spec(current, next) != BumpLevel::NoBump,
        next.3.len() > 0 ==> (classify_spec(current, next) == BumpLevel::Minor || classify_spec(current, next)
            == BumpLevel::Patch),
        (next.3.len() > 0 && current.3.len() > 0 && prerelease_channel(current.3) == prerelease_channel(next.3)
            && next.0 <= current.0) ==> classify_spec(current, next) == BumpLevel::Patch,
{
}

/// A maintenance branch never leaves its range nor goes back: when the
/// current version lies in the range and the computed version is not below
/// it, the capped version lies in the range and is not below it either.
pub proof fn law_cap_stays_in_range(current: VersionParts, next: VersionParts, range: MaintenanceRange)
    requires
        parts_in_range(current, range),
        !core_lt(next, current),
        current.1 < u64::MAX,
        current.2 < u64::MAX,
    ensures
        parts_in_range(capped_spec(current, next, Some(range)), range),
        !core_lt(capped_spec(current, next, Some(range)), current),
{
}

/// The propagation never adds a package twice, nor one of the packages it
/// started from: the names it adds are new and pairwise distinct.
pub open spec fn releases_once(st: Propagation, names: Seq<Seq<char>>) -> bool {
    &&& forall|j: int| 0 <= j < st.added.len() ==> st.released.contains(#[trigger] st.added[j].0)
    &&& adds_new_once(st.added, names)
    &&& forall|n: Seq<char>| #[trigger] names.contains(n) ==> st.released.contains(n)
}

/// The added releases are of packages outside `names`, each once.
pub open spec fn adds_new_once(added: Seq<AddedView>, names: Seq<Seq<char>>) -> bool {
    &&& forall|j: int| 0 <= j < added.len() ==> !names.contains(#[trigger] added[j].0)
    &&& forall|j: int, k: int| #![trigger added[j], added[k]] 0 <= j < k < added.len() ==> added[j].0 != added[k].0
}

proof fn lemma_visit_once(pkgs: Seq<Package>, infos: Seq<Version>, index: TagIndex, ctx: BranchContext, st: Propagation, i: int, chain: Seq<char>, names: Seq<Seq<char>>)
    requires
        0 <= i < pkgs.len(),
        releases_once(st, names),
    ensures
        releases_once(visit(pkgs, infos, index, ctx, st, i, chain), names),
{
    let name = pkgs[i].name@;
    if !(st.err is Some || st.released.contains(name)) {
        let r2 = st.released.push(name);
        assert forall|x: Seq<char>| #[trigger] st.released.contains(x) implies r2.contains(x) by {
            let k = choose|k: int| 0 <= k < st.released.len() && st.released[k] == x;
            assert(r2[k] == x);
        }
        assert(r2[st.released.len() as int] == name);
        let out = visit(pkgs, infos, index, ctx, st, i, chain);
        if out.added.len() > st.added.len() {
            assert(out.added == st.added.push(out.added.last()));
            assert(out.added.last().0 == name);
            assert forall|j: int| 0 <= j < out.added.len() implies out.released.contains(#[trigger] out.added[j].0) by {
                if j < st.added.len() {
                    assert(out.added[j] == st.added[j]);
                }
            }
            assert forall|j: int, k: int| #![trigger out.added[j], out.added[k]] 0 <= j < k < out.added.len() implies out.added[j].0 != out.added[k].0 by {
                if k == st.added.len() {
                    assert(out.added[j] == st.added[j]);
                    assert(st.released.contains(st.added[j].0));
                } else {
                    assert(out.added[j] == st.added[j] && out.added[k] == st.added[k]);
                }
            }
            assert forall|j: int| 0 <= j < out.added.len() implies !names.contains(#[trigger] out.added[j].0) by {
                if j < st.added.len() {
                    assert(out.added[j] == st.added[j]);
                } else {
                    if names.contains(name) {
                        assert(st.released.contains(name));
                    }
                }
            }
        }
    }
}

proof fn lemma_visit_dependents_once(pkgs: Seq<Package>, infos: Seq<Version>, index: TagIndex, ctx: BranchContext, st: Propagation, trigger: Seq<char>, chain: Seq<char>, k: int, names: Seq<Seq<char>>)
    requires
        k <= pkgs.len(),
        releases_once(st, names),
    ensures
        releases_once(visit_dependents(pkgs, infos, index, ctx, st, trigger, chain, k), names),
    decreases k,
{
    if k > 0 {
        lemma_visit_dependents_once(pkgs, infos, index, ctx, st, trigger, chain, k - 1, names);
        if has_local_dep(pkgs[k - 1], trigger) {
            lemma_visit_once(
                pkgs,
                infos,
                index,
                ctx,
                visit_dependents(pkgs, infos, index, ctx, st, trigger, chain, k - 1),
                k - 1,
                chain,
                names,
            );
        }
    }
}

proof fn lemma_propagate_from_once(pkgs: Seq<Package>, infos: Seq<Version>, index: TagIndex, ctx: BranchContext, st: Propagation, qi: int, fuel: nat, names: Seq<Seq<char>>)
    requires
        releases_once(st, names),
    ensures
        releases_once(propagate_from(pkgs, infos, index, ctx, st, qi, fuel), names),
    decreases fuel,
{
    if !(fuel == 0 || st.err is Some || qi < 0 || qi >= st.queue.len()) {
        let (trigger, chain) = st.queue[qi];
        lemma_visit_dependents_once(pkgs, infos, index, ctx, st, trigger, chain, pkgs.len() as int, names);
        let next = visit_dependents(pkgs, infos, index, ctx, st, trigger, chain, pkgs.len() as int);
        lemma_propagate_from_once(pkgs, infos, index, ctx, next, qi + 1, (fuel - 1) as nat, names);
    }
}

/// No package is released twice by the propagation: the dependents it adds
/// are none of the packages released from commits, and each is added once,
/// also through cycles and diamonds of dependencies.
pub proof fn law_propagation_releases_once(pkgs: Seq<Package>, infos: Seq<Version>, index: TagIndex, ctx: BranchContext, names: Seq<Seq<char>>)
    ensures
        adds_new_once(propagation_spec(pkgs, infos, index, ctx, names).added, names),
{
    let st0 = Propagation {
        added: Seq::empty(),
        released: names,
        queue: names.map_values(|n: Seq<char>| (n, n)),
        err: None,
    };
    lemma_propagate_from_once(pkgs, infos, index, ctx, st0, 0, (names.len() + pkgs.len() + 1) as nat, names);
}

} // verus!


