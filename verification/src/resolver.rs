//! Node.js packages: what a `package.json` manifest makes of a package, the
//! dependencies between the packages of a repository, and the new version
//! written into a manifest.
use vstd::prelude::*;

use crate::matcher::{regex_replace, regex_replace_of};
use crate::package::{pair_views, Package};
use crate::text::{append_str, chars_of, rfind, rfind_char, slice, str_eq, string_from, views};
use crate::version::{semver_error_of, semver_parse_of, version_text, PackageRelease, Version};

verus! {

/// The resolver of Node.js (`package.json`) packages.
#[derive(Debug, Clone, Copy, PartialEq, Eq, Structural)]
pub struct NodeResolver;

/// The resolver a name refers to: `node` is the only one.
pub fn create_resolver(name: &str) -> (res: Option<NodeResolver>)
    ensures
        res is Some <==> name@ == "node"@,
{
    if str_eq(name, "node") {
        Some(NodeResolver)
    } else {
        None
    }
}

// ---------------------------------------------------------------------------
// Reading a manifest
// ---------------------------------------------------------------------------

/// The directory of a manifest given by its path relative to the repository
/// root: everything before the last `/`, empty for the root manifest.
pub open spec fn manifest_dir_spec(rel_manifest: Seq<char>) -> Seq<char> {
    match rfind_char(rel_manifest, '/') {
        Some(i) => rel_manifest.take(i),
        None => Seq::empty(),
    }
}

/// The directory of a manifest.
pub fn manifest_dir(rel_manifest: &str) -> (res: String)
    ensures
        res@ == manifest_dir_spec(rel_manifest@),
{
    let c = chars_of(rel_manifest);
    proof {
        crate::text::lemma_rfind_char(c@, '/');
    }
    match rfind(&c, '/') {
        Some(i) => {
            let d = slice(&c, 0, i);
            string_from(&d)
        },
        None => String::new(),
    }
}

/// `0.0.0`, without prerelease or build metadata.
pub open spec fn zero_version(v: Version) -> bool {
    v.major == 0 && v.minor == 0 && v.patch == 0 && v.pre@.len() == 0 && v.build@.len() == 0
}

/// The warning for a `version` field that `semver` does not read.
pub open spec fn invalid_version_warning(text: Seq<char>) -> Seq<char> {
    "invalid version \""@ + text + "\": "@ + semver_error_of(text) + ", defaulting to 0.0.0"@
}

/// What a manifest (`name`, `version` and dependency fields, read from the file
/// at `rel_manifest`) makes of a package: without a name it is skipped and
/// named by its directory (`.` for the root); a missing or invalid version
/// becomes `0.0.0` with a warning; local dependencies are resolved later.
pub open spec fn manifest_package_ok(
    p: Package,
    rel_manifest: Seq<char>,
    name: Option<Seq<char>>,
    version: Option<Seq<char>>,
    deps: Seq<(Seq<char>, Seq<char>)>,
    dev: Seq<(Seq<char>, Seq<char>)>,
    optional: Seq<(Seq<char>, Seq<char>)>,
) -> bool {
    let dir = manifest_dir_spec(rel_manifest);
    let is_root = dir.len() == 0;
    &&& p.path@ == dir
    &&& p.manifest_path@ == rel_manifest
    &&& p.is_root == is_root
    &&& p.local_dependencies@.len() == 0
    &&& match name {
        None => {
            &&& p.skipped
            &&& p.name@ == (if is_root { seq!['.'] } else { dir })
            &&& zero_version(p.version)
            &&& p.warning matches Some(w) && w@ == "no \"name\" field, skipped"@
            &&& p.dependencies@.len() == 0 && p.dev_dependencies@.len() == 0 && p.optional_dependencies@.len() == 0
        },
        Some(n) => {
            &&& !p.skipped
            &&& p.name@ == n
            &&& pair_views(p.dependencies@) == deps
            &&& pair_views(p.dev_dependencies@) == dev
            &&& pair_views(p.optional_dependencies@) == optional
            &&& match version {
                None => zero_version(p.version)
                    && (p.warning matches Some(w) && w@ == "no \"version\" field, defaulting to 0.0.0"@),
                Some(t) => match semver_parse_of(t) {
                    Some(parts) => p.version.parts() == parts && p.warning is None,
                    None => zero_version(p.version)
                        && (p.warning matches Some(w) && w@ == invalid_version_warning(t)),
                },
            }
        },
    }
}

/// The package a manifest describes.
pub fn package_from_manifest(
    rel_manifest: &str,
    name: Option<String>,
    version: Option<String>,
    dependencies: Vec<(String, String)>,
    dev_dependencies: Vec<(String, String)>,
    optional_dependencies: Vec<(String, String)>,
) -> (res: Package)
    ensures
        manifest_package_ok(
            res,
            rel_manifest@,
            crate::matcher::opt_view(name),
            crate::matcher::opt_view(version),
            pair_views(dependencies@),
            pair_views(dev_dependencies@),
            pair_views(optional_dependencies@),
        ),
        res.version.wf(),
{
    let dir = manifest_dir(rel_manifest);
    let is_root = chars_of(dir.as_str()).len() == 0;
    proof {
        reveal_strlit(".");
    }
    match name {
        None => {
            let shown = if is_root {
                crate::text::owned_string(".")
            } else {
                crate::text::owned_string(dir.as_str())
            };
            assert("."@ =~= seq!['.']);
            Package {
                name: shown,
                version: Version::new(0, 0, 0),
                path: dir,
                manifest_path: crate::text::owned_string(rel_manifest),
                is_root,
                local_dependencies: Vec::new(),
                dependencies: Vec::new(),
                dev_dependencies: Vec::new(),
                optional_dependencies: Vec::new(),
                warning: Some(crate::text::owned_string("no \"name\" field, skipped")),
                skipped: true,
            }
        },
        Some(n) => {
            let (v, warning) = match &version {
                None => (
                    Version::new(0, 0, 0),
                    Some(crate::text::owned_string("no \"version\" field, defaulting to 0.0.0")),
                ),
                Some(t) => match Version::parse_or_error(t.as_str()) {
                    Ok(v) => (v, None),
                    Err(e) => {
                        let mut w = chars_of("invalid version \"");
                        append_str(&mut w, t.as_str());
                        append_str(&mut w, "\": ");
                        append_str(&mut w, e.as_str());
                        append_str(&mut w, ", defaulting to 0.0.0");
                        (Version::new(0, 0, 0), Some(string_from(&w)))
                    },
                },
            };
            Package {
                name: n,
                version: v,
                path: dir,
                manifest_path: crate::text::owned_string(rel_manifest),
                is_root,
                local_dependencies: Vec::new(),
                dependencies,
                dev_dependencies,
                optional_dependencies,
                warning,
                skipped: false,
            }
        },
    }
}

// ---------------------------------------------------------------------------
// Local dependencies
// ---------------------------------------------------------------------------

/// Position of the entry with key `k`.
pub open spec fn key_index(m: Seq<(Seq<char>, Seq<char>)>, k: Seq<char>) -> Option<int>
    decreases m.len(),
{
    if m.len() == 0 {
        None
    } else {
        match key_index(m.drop_last(), k) {
            Some(i) => Some(i),
            None => if m.last().0 == k {
                Some(m.len() - 1)
            } else {
                None
            },
        }
    }
}

/// A map insert on an association list: a present key keeps its place and
/// takes the new value; a new key goes last.
pub open spec fn upsert(m: Seq<(Seq<char>, Seq<char>)>, k: Seq<char>, v: Seq<char>) -> Seq<(Seq<char>, Seq<char>)> {
    match key_index(m, k) {
        Some(i) => m.update(i, (k, v)),
        None => m.push((k, v)),
    }
}

/// Some package of the repository has this name.
pub open spec fn is_local(pkgs: Seq<Package>, name: Seq<char>) -> bool {
    exists|k: int| 0 <= k < pkgs.len() && (#[trigger] pkgs[k]).name@ == name
}

/// The local dependencies among the first `n` dependency entries.
pub open spec fn local_upto(pkgs: Seq<Package>, deps: Seq<(Seq<char>, Seq<char>)>, n: int) -> Seq<(Seq<char>, Seq<char>)>
    decreases n,
{
    if n <= 0 {
        Seq::empty()
    } else {
        let rest = local_upto(pkgs, deps, n - 1);
        let d = deps[n - 1];
        if is_local(pkgs, d.0) {
            upsert(rest, d.0, d.1)
        } else {
            rest
        }
    }
}

/// Every dependency entry of a package: regular, then development, then
/// optional ones.
pub open spec fn all_deps(p: Package) -> Seq<(Seq<char>, Seq<char>)> {
    pair_views(p.dependencies@) + pair_views(p.dev_dependencies@) + pair_views(p.optional_dependencies@)
}

/// The local dependencies of a package: each dependency on a package of the
/// repository, once, with the requirement of its last entry.
pub open spec fn local_spec(pkgs: Seq<Package>, p: Package) -> Seq<(Seq<char>, Seq<char>)> {
    local_upto(pkgs, all_deps(p), all_deps(p).len() as int)
}

/// The packages agree on every field but the local dependencies.
pub open spec fn same_but_local(a: Package, b: Package) -> bool {
    &&& a.name == b.name
    &&& a.version == b.version
    &&& a.path == b.path
    &&& a.manifest_path == b.manifest_path
    &&& a.is_root == b.is_root
    &&& pair_views(a.dependencies@) == pair_views(b.dependencies@)
    &&& pair_views(a.dev_dependencies@) == pair_views(b.dev_dependencies@)
    &&& pair_views(a.optional_dependencies@) == pair_views(b.optional_dependencies@)
    &&& a.warning == b.warning
    &&& a.skipped == b.skipped
}

fn upsert_exec(m: &mut Vec<(String, String)>, k: &String, v: &String)
    ensures
        pair_views(final(m)@) == upsert(pair_views(old(m)@), k@, v@),
{
    let ghost mv = pair_views(m@);
    let mut i: usize = 0;
    while i < m.len()
        invariant
            i <= m@.len(),
            mv == pair_views(m@),
            mv == pair_views(old(m)@),
            key_index(mv.take(i as int), k@) is None,
        decreases m@.len() - i,
    {
        assert(mv.take((i + 1) as int).drop_last() =~= mv.take(i as int));
        if str_eq(m[i].0.as_str(), k.as_str()) {
            assert(key_index(mv.take((i + 1) as int), k@) == Some(i as int));
            proof {
                lemma_key_index_prefix(mv, k@, (i + 1) as int);
            }
            let kc = k.clone();
            let vc = v.clone();
            assert(kc@ == k@ && vc@ == v@);
            m.set(i, (kc, vc));
            assert(pair_views(m@) =~= mv.update(i as int, (k@, v@)));
            assert(key_index(mv, k@) == Some(i as int));
            assert(upsert(mv, k@, v@) == mv.update(i as int, (k@, v@)));
            return;
        }
        i = i + 1;
    }
    assert(mv.take(mv.len() as int) =~= mv);
    let kc = k.clone();
    let vc = v.clone();
    assert(kc@ == k@ && vc@ == v@);
    m.push((kc, vc));
    assert(pair_views(m@) =~= mv.push((k@, v@)));
    assert(key_index(mv, k@) is None);
}

proof fn lemma_key_index_prefix(m: Seq<(Seq<char>, Seq<char>)>, k: Seq<char>, n: int)
    requires
        0 <= n <= m.len(),
        key_index(m.take(n), k) is Some,
    ensures
        key_index(m, k) == key_index(m.take(n), k),
    decreases m.len() - n,
{
    if n < m.len() {
        assert(m.take(n + 1).drop_last() =~= m.take(n));
        lemma_key_index_prefix(m, k, n + 1);
    } else {
        assert(m.take(n) =~= m);
    }
}

fn local_deps_of(names: &Vec<String>, pkgs: Ghost<Seq<Package>>, p: &Package) -> (res: Vec<(String, String)>)
    requires
        views(names@) == pkgs@.map_values(|q: Package| q.name@),
    ensures
        pair_views(res@) == local_spec(pkgs@, *p),
{
    let mut all: Vec<(String, String)> = Vec::new();
    append_pairs(&mut all, &p.dependencies);
    append_pairs(&mut all, &p.dev_dependencies);
    append_pairs(&mut all, &p.optional_dependencies);
    let ghost ad = pair_views(all@);
    assert(ad =~= all_deps(*p));
    let mut out: Vec<(String, String)> = Vec::new();
    let mut i: usize = 0;
    while i < all.len()
        invariant
            i <= all@.len(),
            ad == pair_views(all@),
            views(names@) == pkgs@.map_values(|q: Package| q.name@),
            pair_views(out@) == local_upto(pkgs@, ad, i as int),
        decreases all@.len() - i,
    {
        let local = crate::version::contains_string(names, all[i].0.as_str());
        proof {
            let d = ad[i as int];
            if views(names@).contains(d.0) {
                let k = choose|k: int| 0 <= k < views(names@).len() && views(names@)[k] == d.0;
                assert(pkgs@[k].name@ == d.0);
                assert(is_local(pkgs@, d.0));
            }
            if is_local(pkgs@, d.0) {
                let k = choose|k: int| 0 <= k < pkgs@.len() && (#[trigger] pkgs@[k]).name@ == d.0;
                assert(views(names@)[k] == d.0);
                assert(views(names@).contains(d.0));
            }
        }
        if local {
            let k = all[i].0.clone();
            let v = all[i].1.clone();
            upsert_exec(&mut out, &k, &v);
        }
        i = i + 1;
    }
    out
}

fn append_pairs(out: &mut Vec<(String, String)>, v: &Vec<(String, String)>)
    ensures
        pair_views(final(out)@) == pair_views(old(out)@) + pair_views(v@),
{
    let ghost o0 = pair_views(out@);
    let mut i: usize = 0;
    while i < v.len()
        invariant
            i <= v@.len(),
            pair_views(out@) == o0 + pair_views(v@).take(i as int),
        decreases v@.len() - i,
    {
        let ghost before = pair_views(out@);
        out.push((v[i].0.clone(), v[i].1.clone()));
        assert(pair_views(out@) =~= before.push((v@[i as int].0@, v@[i as int].1@)));
        assert(pair_views(v@).take((i + 1) as int) =~= pair_views(v@).take(i as int).push((v@[i as int].0@, v@[i as int].1@)));
        i = i + 1;
    }
    assert(pair_views(v@).take(v@.len() as int) =~= pair_views(v@));
}

impl NodeResolver {
    /// Resolves the local dependencies of every package: the dependencies
    /// (regular, development or optional) on packages of the repository.
    pub fn resolve_dependencies(&self, packages: &mut Vec<Package>)
        ensures
            final(packages)@.len() == old(packages)@.len(),
            forall|i: int|
                0 <= i < old(packages)@.len() ==> same_but_local(#[trigger] final(packages)@[i], old(packages)@[i])
                    && pair_views(final(packages)@[i].local_dependencies@) == local_spec(old(packages)@, old(packages)@[i]),
    {
        let ghost pk = packages@;
        let mut names: Vec<String> = Vec::new();
        let mut i: usize = 0;
        while i < packages.len()
            invariant
                i <= packages@.len(),
                pk == packages@,
                views(names@) == pk.take(i as int).map_values(|q: Package| q.name@),
            decreases packages@.len() - i,
        {
            let ghost n0 = views(names@);
            names.push(packages[i].name.clone());
            assert(views(names@) =~= n0.push(pk[i as int].name@));
            assert(pk.take((i + 1) as int).map_values(|q: Package| q.name@) =~= pk.take(i as int).map_values(
                |q: Package| q.name@,
            ).push(pk[i as int].name@));
            i = i + 1;
        }
        assert(pk.take(pk.len() as int) =~= pk);
        let mut out: Vec<Package> = Vec::new();
        let mut j: usize = 0;
        while j < packages.len()
            invariant
                j <= packages@.len(),
                pk == packages@,
                views(names@) == pk.map_values(|q: Package| q.name@),
                out@.len() == j,
                forall|t: int|
                    0 <= t < j ==> same_but_local(#[trigger] out@[t], pk[t]) && pair_views(out@[t].local_dependencies@)
                        == local_spec(pk, pk[t]),
            decreases packages@.len() - j,
        {
            let local = local_deps_of(&names, Ghost(pk), &packages[j]);
            let mut p = packages[j].duplicate();
            p.local_dependencies = local;
            out.push(p);
            j = j + 1;
        }
        *packages = out;
    }
}

// ---------------------------------------------------------------------------
// Writing new versions
// ---------------------------------------------------------------------------

/// The first package with the name.
pub open spec fn first_named(pkgs: Seq<Package>, name: Seq<char>) -> Option<int>
    decreases pkgs.len(),
{
    if pkgs.len() == 0 {
        None
    } else {
        match first_named(pkgs.drop_last(), name) {
            Some(i) => Some(i),
            None => if pkgs.last().name@ == name {
                Some(pkgs.len() - 1)
            } else {
                None
            },
        }
    }
}

fn find_first_named(pkgs: &[Package], name: &str) -> (res: Option<usize>)
    ensures
        match res {
            Some(k) => first_named(pkgs@, name@) == Some(k as int),
            None => first_named(pkgs@, name@) is None,
        },
{
    let mut i: usize = 0;
    while i < pkgs.len()
        invariant
            i <= pkgs@.len(),
            first_named(pkgs@.take(i as int), name@) is None,
        decreases pkgs@.len() - i,
    {
        assert(pkgs@.take((i + 1) as int).drop_last() =~= pkgs@.take(i as int));
        if str_eq(pkgs[i].name.as_str(), name) {
            proof {
                lemma_first_named_prefix(pkgs@, name@, (i + 1) as int);
            }
            return Some(i);
        }
        i = i + 1;
    }
    assert(pkgs@.take(pkgs@.len() as int) =~= pkgs@);
    None
}

proof fn lemma_first_named_prefix(pkgs: Seq<Package>, name: Seq<char>, n: int)
    requires
        0 <= n <= pkgs.len(),
        first_named(pkgs.take(n), name) is Some,
    ensures
        first_named(pkgs, name) == first_named(pkgs.take(n), name),
    decreases pkgs.len() - n,
{
    if n < pkgs.len() {
        assert(pkgs.take(n + 1).drop_last() =~= pkgs.take(n));
        lemma_first_named_prefix(pkgs, name, n + 1);
    } else {
        assert(pkgs.take(n) =~= pkgs);
    }
}

impl NodeResolver {
    /// The package whose manifest each release updates (the first package of
    /// the release's name), or the first release whose package is missing.
    pub fn bump_targets(&self, packages: &[Package], releases: &[PackageRelease]) -> (res: Result<Vec<usize>, usize>)
        ensures
            match res {
                Ok(t) => t@.len() == releases@.len() && forall|i: int|
                    0 <= i < releases@.len() ==> first_named(packages@, (#[trigger] releases@[i]).package_name@) == Some(
                        t@[i] as int,
                    ),
                Err(j) => j < releases@.len() && first_named(packages@, releases@[j as int].package_name@) is None
                    && forall|i: int|
                    0 <= i < j ==> first_named(packages@, (#[trigger] releases@[i]).package_name@) is Some,
            },
    {
        let mut out: Vec<usize> = Vec::new();
        let mut i: usize = 0;
        while i < releases.len()
            invariant
                i <= releases@.len(),
                out@.len() == i,
                forall|t: int|
                    0 <= t < i ==> first_named(packages@, (#[trigger] releases@[t]).package_name@) == Some(out@[t] as int),
            decreases releases@.len() - i,
        {
            match find_first_named(packages, releases[i].package_name.as_str()) {
                Some(k) => out.push(k),
                None => {
                    return Err(i);
                },
            }
            i = i + 1;
        }
        Ok(out)
    }
}

/// The `"version": "..."` field of a manifest (the first one).
pub const VERSION_FIELD_PATTERN: &'static str = "(\"version\"\\s*:\\s*)\"[^\"]*\"";

/// The replacement that writes `version` into the field, keeping its spacing.
pub open spec fn version_replacement(version: Seq<char>) -> Seq<char> {
    "${1}\""@ + version + seq!['"']
}

/// The manifest text with the version field set to `version`, every other
/// byte kept; `None` when the text has no version field to change.
pub open spec fn manifest_update_spec(content: Seq<char>, version: Seq<char>) -> Option<Seq<char>> {
    let updated = regex_replace_of(VERSION_FIELD_PATTERN@, content, version_replacement(version));
    if updated == content {
        None
    } else {
        Some(updated)
    }
}

/// Writes a new version into the text of a manifest.
pub fn update_manifest_version(content: &str, version: &Version) -> (res: Option<String>)
    ensures
        crate::matcher::opt_view(res) == manifest_update_spec(content@, version_text(version.parts())),
{
    let v = version.to_string();
    let mut r = chars_of("${1}\"");
    append_str(&mut r, v.as_str());
    r.push('"');
    let replacement = string_from(&r);
    proof {
        assert(replacement@ =~= version_replacement(v@));
    }
    let updated = regex_replace(VERSION_FIELD_PATTERN, content, replacement.as_str());
    if str_eq(updated.as_str(), content) {
        None
    } else {
        Some(updated)
    }
}

} // verus!

