//! The npm step: publish order, registry checks and options.
use vstd::prelude::*;

use crate::package::Package;
use crate::version::{release_names, PackageRelease};
use crate::pm::PackageManager;
use crate::text::{chars_of, contains_seq, str_eq, string_from, trim, views};

verus! {

/// Options of the npm step.
#[derive(Debug)]
pub struct NpmOptions {
    /// Access level of the publish (`public` or `restricted`).
    pub access: Option<String>,
    /// Registry URL.
    pub registry: Option<String>,
    /// Extra arguments of the publish command.
    pub publish_args: Vec<String>,
    /// Dist-tag; by default derived from the prerelease channel.
    pub tag: Option<String>,
    /// Publish with `--provenance`.
    pub provenance: bool,
    /// Force a package manager instead of detecting it.
    pub package_manager: Option<PackageManager>,
    /// Check the registry before publishing to skip published versions.
    pub check_registry: bool,
}

pub fn default_check_registry() -> (res: bool)
    ensures
        res,
{
    true
}

impl Default for NpmOptions {
    fn default() -> (res: Self)
        ensures
            res.access is None,
            res.registry is None,
            res.publish_args@.len() == 0,
            res.tag is None,
            !res.provenance,
            res.package_manager is None,
            res.check_registry,
    {
        NpmOptions {
            access: None,
            registry: None,
            publish_args: Vec::new(),
            tag: None,
            provenance: false,
            package_manager: None,
            check_registry: default_check_registry(),
        }
    }
}

/// The npm step.
#[derive(Debug, Clone, Copy, PartialEq, Eq, Structural)]
pub struct NpmStep;

/// What the registry says of a version.
#[derive(Debug, PartialEq, Eq)]
pub enum VersionCheckResult {
    /// The version exists on the registry.
    Published(String),
    /// The version is not there (safe to publish).
    NotFound(String),
    /// A registry error (auth, network): do not go on.
    Error(String),
}

/// The verdict of `npm view <name>@<version> version` from its exit status
/// and trimmed outputs: success naming the version means published; success
/// naming anything else, or an `E404` error, means not found; any other
/// error is an error.
pub open spec fn check_spec(success: bool, stdout: Seq<char>, stderr: Seq<char>, version: Seq<char>) -> (int, Seq<char>) {
    if success {
        if trim(stdout) == version {
            (0, trim(stdout))
        } else {
            (1, trim(stdout))
        }
    } else if contains_seq(trim(stderr), "E404"@) {
        (1, trim(stderr))
    } else {
        (2, trim(stderr))
    }
}

pub open spec fn check_view(r: VersionCheckResult) -> (int, Seq<char>) {
    match r {
        VersionCheckResult::Published(s) => (0, s@),
        VersionCheckResult::NotFound(s) => (1, s@),
        VersionCheckResult::Error(s) => (2, s@),
    }
}

/// Classifies the outcome of a registry check.
pub fn classify_version_check(success: bool, stdout: &str, stderr: &str, version: &str) -> (res: VersionCheckResult)
    ensures
        check_view(res) == check_spec(success, stdout@, stderr@, version@),
{
    let out = crate::text::trim_str(stdout);
    let err = crate::text::trim_str(stderr);
    if success {
        let v = chars_of(version);
        if crate::text::chars_eq(&out, &v) {
            return VersionCheckResult::Published(string_from(&out));
        }
        return VersionCheckResult::NotFound(string_from(&out));
    }
    let e404 = chars_of("E404");
    if crate::text::contains(&err, &e404) {
        VersionCheckResult::NotFound(string_from(&err))
    } else {
        VersionCheckResult::Error(string_from(&err))
    }
}

/// The arguments of the registry check `npm view <name>@<version> version`,
/// with `--registry` when given.
pub fn view_args(name: &str, version: &str, registry: Option<&str>) -> (res: Vec<String>)
    ensures
        views(res@) == seq!["view"@, name@ + seq!['@'] + version@, "version"@] + match registry {
            Some(r) => seq!["--registry"@, r@],
            None => Seq::<Seq<char>>::empty(),
        },
{
    let mut v: Vec<String> = Vec::new();
    v.push(crate::text::owned_string("view"));
    assert(views(v@) =~= seq!["view"@]);
    let mut spec = chars_of(name);
    spec.push('@');
    crate::text::append_str(&mut spec, version);
    let ghost sv = spec@;
    v.push(string_from(&spec));
    assert(views(v@) =~= seq!["view"@, sv]);
    v.push(crate::text::owned_string("version"));
    assert(views(v@) =~= seq!["view"@, sv, "version"@]);
    assert(sv =~= name@ + seq!['@'] + version@);
    match registry {
        Some(r) => {
            let ghost v0 = views(v@);
            v.push(crate::text::owned_string("--registry"));
            v.push(crate::text::owned_string(r));
            assert(views(v@) =~= v0 + seq!["--registry"@, r@]);
        },
        None => {},
    }
    assert(views(v@) =~= seq!["view"@, name@ + seq!['@'] + version@, "version"@] + match registry {
        Some(r) => seq!["--registry"@, r@],
        None => Seq::<Seq<char>>::empty(),
    });
    v
}

/// How the registry check is shown.
pub fn format_view_command(name: &str, version: &str, registry: Option<&str>) -> (res: String)
    ensures
        res@ == crate::step::subprocess::command_text(
            "npm"@,
            seq!["view"@, name@ + seq!['@'] + version@, "version"@] + match registry {
                Some(r) => seq!["--registry"@, r@],
                None => Seq::<Seq<char>>::empty(),
            },
        ),
{
    let args = view_args(name, version, registry);
    crate::step::subprocess::format_command("npm", &args)
}

// ---------------------------------------------------------------------------
// Publish levels
// ---------------------------------------------------------------------------

/// The level last assigned to `name`.
pub open spec fn lookup_level(assigned: Seq<(Seq<char>, nat)>, name: Seq<char>) -> Option<nat>
    decreases assigned.len(),
{
    if assigned.len() == 0 {
        None
    } else if assigned.last().0 == name {
        Some(assigned.last().1)
    } else {
        lookup_level(assigned.drop_last(), name)
    }
}

/// One more than the highest level among the dependencies already placed;
/// 0 when none is.
pub open spec fn level_from(assigned: Seq<(Seq<char>, nat)>, deps: Seq<(String, String)>) -> nat
    decreases deps.len(),
{
    if deps.len() == 0 {
        0
    } else {
        let rest = level_from(assigned, deps.drop_last());
        match lookup_level(assigned, deps.last().0@) {
            Some(l) => if l + 1 > rest {
                l + 1
            } else {
                rest
            },
            None => rest,
        }
    }
}

/// The first package with the given name.
pub open spec fn first_named(pkgs: Seq<Package>, name: Seq<char>) -> Option<int>
    decreases pkgs.len(),
{
    if pkgs.len() == 0 {
        None
    } else if pkgs[0].name@ == name {
        Some(0int)
    } else {
        match first_named(pkgs.drop_first(), name) {
            Some(k) => Some(k + 1),
            None => None,
        }
    }
}

/// `levels` with `name` added at `level` (new empty levels added first).
pub open spec fn place(levels: Seq<Seq<Seq<char>>>, level: nat, name: Seq<char>) -> Seq<Seq<Seq<char>>> {
    let grown = if levels.len() <= level {
        levels + Seq::new((level + 1 - levels.len()) as nat, |i: int| Seq::<Seq<char>>::empty())
    } else {
        levels
    };
    grown.update(level as int, grown[level as int].push(name))
}

/// The publish levels of the released packages in `order`: a package goes
/// one level above the highest of its already placed dependencies.
pub open spec fn levels_upto(order: Seq<Seq<char>>, pkgs: Seq<Package>, released: Seq<Seq<char>>, k: int) -> (Seq<Seq<Seq<char>>>, Seq<(Seq<char>, nat)>)
    decreases k,
{
    if k <= 0 {
        (Seq::empty(), Seq::empty())
    } else {
        let (levels, assigned) = levels_upto(order, pkgs, released, k - 1);
        let name = order[k - 1];
        if !released.contains(name) {
            (levels, assigned)
        } else {
            let level = match first_named(pkgs, name) {
                Some(i) => level_from(assigned, pkgs[i].local_dependencies@),
                None => 0,
            };
            (place(levels, level, name), assigned.push((name, level)))
        }
    }
}

pub open spec fn assigned_view(a: Seq<(String, usize)>) -> Seq<(Seq<char>, nat)> {
    a.map_values(|e: (String, usize)| (e.0@, e.1 as nat))
}

pub open spec fn levels_view(l: Seq<Vec<String>>) -> Seq<Seq<Seq<char>>> {
    l.map_values(|v: Vec<String>| views(v@))
}

fn lookup_exec(assigned: &Vec<(String, usize)>, name: &str) -> (res: Option<usize>)
    ensures
        match res {
            Some(l) => lookup_level(assigned_view(assigned@), name@) == Some(l as nat),
            None => lookup_level(assigned_view(assigned@), name@) is None,
        },
{
    let ghost av = assigned_view(assigned@);
    let mut i: usize = assigned.len();
    assert(av.take(i as int) =~= av);
    while i > 0
        invariant
            i <= assigned@.len(),
            av == assigned_view(assigned@),
            lookup_level(av, name@) == lookup_level(av.take(i as int), name@),
        decreases i,
    {
        let ghost t = av.take(i as int);
        assert(t.last() == (assigned@[i - 1].0@, assigned@[i - 1].1 as nat));
        if str_eq(assigned[i - 1].0.as_str(), name) {
            return Some(assigned[i - 1].1);
        }
        assert(t.drop_last() =~= av.take(i - 1));
        i = i - 1;
    }
    None
}

pub open spec fn levels_bounded(a: Seq<(Seq<char>, nat)>) -> bool {
    forall|j: int| 0 <= j < a.len() ==> (#[trigger] a[j]).1 < a.len()
}

proof fn lemma_lookup_bound(a: Seq<(Seq<char>, nat)>, name: Seq<char>, bound: nat)
    requires
        forall|j: int| 0 <= j < a.len() ==> (#[trigger] a[j]).1 < bound,
    ensures
        lookup_level(a, name) matches Some(l) ==> l < bound,
    decreases a.len(),
{
    if a.len() > 0 && a.last().0 != name {
        lemma_lookup_bound(a.drop_last(), name, bound);
    }
}

proof fn lemma_level_from_bound(a: Seq<(Seq<char>, nat)>, deps: Seq<(String, String)>)
    requires
        levels_bounded(a),
    ensures
        level_from(a, deps) <= a.len(),
    decreases deps.len(),
{
    if deps.len() > 0 {
        lemma_level_from_bound(a, deps.drop_last());
        lemma_lookup_bound(a, deps.last().0@, a.len());
    }
}

fn level_from_exec(assigned: &Vec<(String, usize)>, deps: &Vec<(String, String)>) -> (res: usize)
    requires
        levels_bounded(assigned_view(assigned@)),
    ensures
        res as nat == level_from(assigned_view(assigned@), deps@),
{
    let ghost av = assigned_view(assigned@);
    let mut best: usize = 0;
    let mut d: usize = 0;
    while d < deps.len()
        invariant
            d <= deps@.len(),
            av == assigned_view(assigned@),
            levels_bounded(av),
            best as nat == level_from(av, deps@.take(d as int)),
        decreases deps@.len() - d,
    {
        assert(deps@.take((d + 1) as int).drop_last() =~= deps@.take(d as int));
        assert(deps@.take((d + 1) as int).last() == deps@[d as int]);
        proof {
            lemma_lookup_bound(av, deps@[d as int].0@, av.len());
        }
        match lookup_exec(assigned, deps[d].0.as_str()) {
            Some(l) => {
                let len = assigned.len();
                assert(l < len);
                if l + 1 > best {
                    best = l + 1;
                }
            },
            None => {},
        }
        d = d + 1;
    }
    assert(deps@.take(deps@.len() as int) =~= deps@);
    best
}

fn first_named_exec(pkgs: &[Package], name: &str) -> (res: Option<usize>)
    ensures
        match res {
            Some(k) => first_named(pkgs@, name@) == Some(k as int) && k < pkgs@.len(),
            None => first_named(pkgs@, name@) is None,
        },
{
    let mut i: usize = 0;
    assert(pkgs@.skip(0) =~= pkgs@);
    while i < pkgs.len()
        invariant
            i <= pkgs@.len(),
            first_named(pkgs@, name@) == match first_named(pkgs@.skip(i as int), name@) {
                Some(k) => Some(k + i),
                None => None,
            },
        decreases pkgs@.len() - i,
    {
        assert(pkgs@.skip(i as int)[0] == pkgs@[i as int]);
        if str_eq(pkgs[i].name.as_str(), name) {
            return Some(i);
        }
        assert(pkgs@.skip(i as int).drop_first() =~= pkgs@.skip(i + 1));
        i = i + 1;
    }
    None
}

fn place_exec(levels: &mut Vec<Vec<String>>, level: usize, name: String)
    ensures
        levels_view(final(levels)@) == place(levels_view(old(levels)@), level as nat, name@),
{
    let ghost l0 = levels_view(levels@);
    while levels.len() <= level
        invariant
            levels_view(levels@).len() >= l0.len(),
            forall|i: int| 0 <= i < l0.len() ==> levels_view(levels@)[i] == l0[i],
            forall|i: int| l0.len() <= i < levels@.len() ==> levels_view(levels@)[i] == Seq::<Seq<char>>::empty(),
            l0.len() <= level ==> levels@.len() <= level + 1,
            l0.len() > level ==> levels@.len() == l0.len(),
        decreases level + 1 - levels@.len(),
    {
        let ghost b = levels@;
        let e: Vec<String> = Vec::new();
        assert(views(e@) =~= Seq::<Seq<char>>::empty());
        levels.push(e);
        assert(levels_view(levels@) =~= levels_view(b).push(Seq::<Seq<char>>::empty()));
    }
    let ghost grown = levels_view(levels@);
    proof {
        let expect = if l0.len() <= level {
            l0 + Seq::new((level + 1 - l0.len()) as nat, |i: int| Seq::<Seq<char>>::empty())
        } else {
            l0
        };
        assert(grown =~= expect);
    }
    let mut row = levels.remove(level);
    let ghost rv = views(row@);
    row.push(name);
    assert(views(row@) =~= rv.push(name@));
    levels.insert(level, row);
    assert(levels_view(levels@) =~= grown.update(level as int, grown[level as int].push(name@)));
}

/// The publish levels of the released packages, in topological order: a
/// package is published one level after the highest of its dependencies
/// released before it, so that each level can be published in parallel.
pub fn dependency_levels(topo_order: &Vec<String>, packages: &[Package], releases: &[PackageRelease]) -> (res: Vec<Vec<String>>)
    ensures
        levels_view(res@) == levels_upto(views(topo_order@), packages@, release_names(releases@), topo_order@.len() as int).0,
{
    let mut names: Vec<String> = Vec::new();
    let mut r: usize = 0;
    while r < releases.len()
        invariant
            r <= releases@.len(),
            views(names@) == release_names(releases@).take(r as int),
        decreases releases@.len() - r,
    {
        let ghost n0 = views(names@);
        names.push(releases[r].package_name.clone());
        assert(views(names@) =~= n0.push(releases@[r as int].package_name@));
        assert(release_names(releases@).take((r + 1) as int) =~= release_names(releases@).take(r as int).push(releases@[r as int].package_name@));
        r = r + 1;
    }
    assert(release_names(releases@).take(releases@.len() as int) =~= release_names(releases@));
    let ghost ov = views(topo_order@);
    let ghost rn = release_names(releases@);
    let mut levels: Vec<Vec<String>> = Vec::new();
    let mut assigned: Vec<(String, usize)> = Vec::new();
    let mut k: usize = 0;
    while k < topo_order.len()
        invariant
            k <= topo_order@.len(),
            ov == views(topo_order@),
            views(names@) == rn,
            rn == release_names(releases@),
            (levels_view(levels@), assigned_view(assigned@)) == levels_upto(ov, packages@, rn, k as int),
            levels_bounded(assigned_view(assigned@)),
            assigned@.len() <= k,
        decreases topo_order@.len() - k,
    {
        let name = &topo_order[k];
        assert(ov[k as int] == name@);
        if crate::version::contains_string(&names, name.as_str()) {
            let level = match first_named_exec(packages, name.as_str()) {
                Some(i) => {
                    proof {
                        lemma_level_from_bound(assigned_view(assigned@), packages@[i as int].local_dependencies@);
                    }
                    level_from_exec(&assigned, &packages[i].local_dependencies)
                },
                None => 0,
            };
            place_exec(&mut levels, level, name.clone());
            let ghost a0 = assigned_view(assigned@);
            assigned.push((name.clone(), level));
            assert(assigned_view(assigned@) =~= a0.push((name@, level as nat)));
            assert(levels_bounded(assigned_view(assigned@))) by {
                assert forall|j: int| 0 <= j < assigned_view(assigned@).len() implies (#[trigger] assigned_view(assigned@)[j]).1 < assigned_view(assigned@).len() by {
                    if j < a0.len() {
                        assert(assigned_view(assigned@)[j] == a0[j]);
                    }
                }
            }
        }
        k = k + 1;
    }
    levels
}

/// A package goes above every dependency already placed: its level is higher
/// than the level of each of them, so it is published after all of them.
pub proof fn law_level_above_dependencies(assigned: Seq<(Seq<char>, nat)>, deps: Seq<(String, String)>)
    ensures
        forall|j: int|
            0 <= j < deps.len() ==> (lookup_level(assigned, (#[trigger] deps[j]).0@) matches Some(l) ==> l < level_from(
                assigned,
                deps,
            )),
    decreases deps.len(),
{
    if deps.len() > 0 {
        law_level_above_dependencies(assigned, deps.drop_last());
        assert forall|j: int| 0 <= j < deps.len() implies (lookup_level(assigned, (#[trigger] deps[j]).0@) matches Some(
            l,
        ) ==> l < level_from(assigned, deps)) by {
            if j < deps.len() - 1 {
                assert(deps[j] == deps.drop_last()[j]);
            }
        }
    }
}

// ---------------------------------------------------------------------------
// What to publish
// ---------------------------------------------------------------------------

/// The positions of the checks with verdict `kind` (0 published, 1 not
/// found, 2 error), in order.
pub open spec fn verdict_indices(checks: Seq<VersionCheckResult>, kind: int) -> Seq<int>
    decreases checks.len(),
{
    if checks.len() == 0 {
        Seq::empty()
    } else {
        let rest = verdict_indices(checks.drop_last(), kind);
        if check_view(checks.last()).0 == kind {
            rest.push(checks.len() - 1)
        } else {
            rest
        }
    }
}

/// What the registry checks decide: when any check failed with an error,
/// nothing is published and the failing positions are returned; otherwise
/// the positions of the versions not found, which are published (versions
/// already published are skipped).
pub fn select_to_publish(checks: &Vec<VersionCheckResult>) -> (res: Result<Vec<usize>, Vec<usize>>)
    ensures
        (res is Err) <==> (exists|i: int| 0 <= i < checks@.len() && #[trigger] check_view(checks@[i]).0 == 2),
        res matches Err(e) ==> e@.map_values(|k: usize| k as int) == verdict_indices(checks@, 2),
        res matches Ok(s) ==> s@.map_values(|k: usize| k as int) == verdict_indices(checks@, 1),
{
    let mut errors: Vec<usize> = Vec::new();
    let mut found: Vec<usize> = Vec::new();
    let mut i: usize = 0;
    while i < checks.len()
        invariant
            i <= checks@.len(),
            errors@.map_values(|k: usize| k as int) == verdict_indices(checks@.take(i as int), 2),
            found@.map_values(|k: usize| k as int) == verdict_indices(checks@.take(i as int), 1),
            (errors@.len() > 0) <==> (exists|j: int| 0 <= j < i && #[trigger] check_view(checks@[j]).0 == 2),
        decreases checks@.len() - i,
    {
        let ghost t = checks@.take((i + 1) as int);
        assert(t.drop_last() =~= checks@.take(i as int));
        assert(t.last() == checks@[i as int]);
        let ghost e0 = errors@;
        let ghost f0 = found@;
        match &checks[i] {
            VersionCheckResult::Error(_) => {
                assert(check_view(checks@[i as int]).0 == 2);
                errors.push(i);
                assert(errors@.map_values(|k: usize| k as int) =~= e0.map_values(|k: usize| k as int).push(i as int));
            },
            VersionCheckResult::NotFound(_) => {
                assert(check_view(checks@[i as int]).0 != 2);
                found.push(i);
                assert(found@.map_values(|k: usize| k as int) =~= f0.map_values(|k: usize| k as int).push(i as int));
            },
            VersionCheckResult::Published(_) => {
                assert(check_view(checks@[i as int]).0 != 2);
            },
        }
        i = i + 1;
    }
    assert(checks@.take(checks@.len() as int) =~= checks@);
    if errors.len() > 0 {
        Err(errors)
    } else {
        Ok(found)
    }
}

} // verus!


