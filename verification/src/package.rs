//! Packages of the repository, which package a file belongs to, and the
//! order in which packages depend on each other.
use vstd::prelude::*;

use crate::text::{chars_of, split_char, split_chars, str_eq};
use crate::version::Version;

verus! {

/// A package of the repository.
#[derive(Debug)]
pub struct Package {
    /// Package name (`@acme/core`, `my-lib`).
    pub name: String,
    pub version: Version,
    /// Directory of the package, relative to the repository root (empty for
    /// the root package).
    pub path: String,
    /// Path of the manifest, relative to the repository root.
    pub manifest_path: String,
    /// Whether the manifest is at the repository root.
    pub is_root: bool,
    /// Dependencies on other packages of the repository: (name, requirement).
    pub local_dependencies: Vec<(String, String)>,
    /// All dependencies.
    pub dependencies: Vec<(String, String)>,
    /// All development dependencies.
    pub dev_dependencies: Vec<(String, String)>,
    /// All optional dependencies.
    pub optional_dependencies: Vec<(String, String)>,
    /// A problem found while reading the manifest.
    pub warning: Option<String>,
    /// The manifest cannot be released (it has no name).
    pub skipped: bool,
}

pub open spec fn pair_views(v: Seq<(String, String)>) -> Seq<(Seq<char>, Seq<char>)> {
    v.map_values(|p: (String, String)| (p.0@, p.1@))
}

fn clone_pairs(v: &Vec<(String, String)>) -> (res: Vec<(String, String)>)
    ensures
        pair_views(res@) == pair_views(v@),
{
    let mut out: Vec<(String, String)> = Vec::new();
    let mut i: usize = 0;
    while i < v.len()
        invariant
            i <= v@.len(),
            pair_views(out@) == pair_views(v@).take(i as int),
        decreases v@.len() - i,
    {
        let ghost o0 = out@;
        out.push((v[i].0.clone(), v[i].1.clone()));
        assert(pair_views(out@) =~= pair_views(o0).push((v@[i as int].0@, v@[i as int].1@)));
        assert(pair_views(v@).take((i + 1) as int) =~= pair_views(v@).take(i as int).push((v@[i as int].0@, v@[i as int].1@)));
        assert(pair_views(out@) =~= pair_views(v@).take((i + 1) as int));
        i = i + 1;
    }
    assert(pair_views(v@).take(v@.len() as int) =~= pair_views(v@));
    out
}

impl Package {
    /// The two packages agree on every field, the dependency lists by content.
    pub open spec fn same(self, other: Package) -> bool {
        &&& self.name == other.name
        &&& self.version == other.version
        &&& self.path == other.path
        &&& self.manifest_path == other.manifest_path
        &&& self.is_root == other.is_root
        &&& pair_views(self.local_dependencies@) == pair_views(other.local_dependencies@)
        &&& pair_views(self.dependencies@) == pair_views(other.dependencies@)
        &&& pair_views(self.dev_dependencies@) == pair_views(other.dev_dependencies@)
        &&& pair_views(self.optional_dependencies@) == pair_views(other.optional_dependencies@)
        &&& self.warning == other.warning
        &&& self.skipped == other.skipped
    }

    /// A copy of the package.
    pub fn duplicate(&self) -> (res: Package)
        ensures
            res.same(*self),
    {
        Package {
            name: self.name.clone(),
            version: self.version.clone(),
            path: self.path.clone(),
            manifest_path: self.manifest_path.clone(),
            is_root: self.is_root,
            local_dependencies: clone_pairs(&self.local_dependencies),
            dependencies: clone_pairs(&self.dependencies),
            dev_dependencies: clone_pairs(&self.dev_dependencies),
            optional_dependencies: clone_pairs(&self.optional_dependencies),
            warning: crate::commit::clone_opt_string(&self.warning),
            skipped: self.skipped,
        }
    }
}

// ---------------------------------------------------------------------------
// Which package a file belongs to
// ---------------------------------------------------------------------------

/// The parts that count as path components: non-empty and not `.`.
pub open spec fn keep_parts(parts: Seq<Seq<char>>) -> Seq<Seq<char>>
    decreases parts.len(),
{
    if parts.len() == 0 {
        Seq::empty()
    } else {
        let rest = keep_parts(parts.drop_last());
        if parts.last().len() > 0 && parts.last() != seq!['.'] {
            rest.push(parts.last())
        } else {
            rest
        }
    }
}

/// The components of a relative `/`-separated path.
pub open spec fn components(path: Seq<char>) -> Seq<Seq<char>> {
    keep_parts(split_char(path, '/'))
}

/// A package owns a file when its directory is a component-wise prefix of
/// the file's path; the root package (empty directory) owns every file.
pub open spec fn owns(pkg_path: Seq<char>, file: Seq<char>) -> bool {
    pkg_path.len() == 0 || components(pkg_path).is_prefix_of(components(file))
}

/// The most specific owner among the first `n` packages: the one with the
/// most path components, the last one among equals.
pub open spec fn owner_upto(pkgs: Seq<Package>, file: Seq<char>, n: int) -> Option<int>
    decreases n,
{
    if n <= 0 {
        None
    } else {
        let rest = owner_upto(pkgs, file, n - 1);
        if owns(pkgs[n - 1].path@, file) {
            match rest {
                None => Some(n - 1),
                Some(b) => if components(pkgs[n - 1].path@).len() >= components(pkgs[b].path@).len() {
                    Some(n - 1)
                } else {
                    Some(b)
                },
            }
        } else {
            rest
        }
    }
}

pub open spec fn owner_index(pkgs: Seq<Package>, file: Seq<char>) -> Option<int> {
    owner_upto(pkgs, file, pkgs.len() as int)
}

/// The components of a path.
pub fn path_components(path: &str) -> (res: Vec<Vec<char>>)
    ensures
        res@.map_values(|p: Vec<char>| p@) == components(path@),
{
    let chars = chars_of(path);
    let parts = split_chars(&chars, '/');
    let ghost pv = parts@.map_values(|p: Vec<char>| p@);
    let mut out: Vec<Vec<char>> = Vec::new();
    let mut i: usize = 0;
    while i < parts.len()
        invariant
            i <= parts.len(),
            pv == parts@.map_values(|p: Vec<char>| p@),
            out@.map_values(|p: Vec<char>| p@) == keep_parts(pv.take(i as int)),
        decreases parts.len() - i,
    {
        assert(pv.take((i + 1) as int).drop_last() =~= pv.take(i as int));
        assert(pv.take((i + 1) as int).last() == parts@[i as int]@);
        let p = &parts[i];
        let dot = p.len() == 1 && p[0] == '.';
        proof {
            if p@ == seq!['.'] {
                assert(p@.len() == 1 && p@[0] == '.');
            }
            if dot {
                assert(p@ =~= seq!['.']);
            }
        }
        if p.len() > 0 && !dot {
            let ghost before = out@;
            out.push(p.clone());
            assert(out@.map_values(|q: Vec<char>| q@) =~= before.map_values(|q: Vec<char>| q@).push(
                p@,
            ));
        }
        i = i + 1;
    }
    assert(pv.take(parts.len() as int) =~= pv);
    out
}

fn components_prefix(a: &Vec<Vec<char>>, b: &Vec<Vec<char>>) -> (res: bool)
    ensures
        res == a@.map_values(|p: Vec<char>| p@).is_prefix_of(b@.map_values(|p: Vec<char>| p@)),
{
    let ghost av = a@.map_values(|p: Vec<char>| p@);
    let ghost bv = b@.map_values(|p: Vec<char>| p@);
    if a.len() > b.len() {
        return false;
    }
    let mut i: usize = 0;
    while i < a.len()
        invariant
            i <= a.len() <= b.len(),
            av == a@.map_values(|p: Vec<char>| p@),
            bv == b@.map_values(|p: Vec<char>| p@),
            forall|j: int| 0 <= j < i ==> av[j] == bv[j],
        decreases a.len() - i,
    {
        if !crate::text::chars_eq(&a[i], &b[i]) {
            assert(av[i as int] != bv[i as int]);
            return false;
        }
        i = i + 1;
    }
    assert(bv.take(av.len() as int) =~= av);
    true
}

/// The index of the package a file belongs to.
pub fn owner_of(file_path: &str, packages: &[Package]) -> (res: Option<usize>)
    ensures
        match owner_index(packages@, file_path@) {
            Some(k) => res == Some(k as usize) && 0 <= k < packages@.len(),
            None => res is None,
        },
{
    let file = path_components(file_path);
    let mut best: Option<usize> = None;
    let mut best_len: usize = 0;
    let mut i: usize = 0;
    while i < packages.len()
        invariant
            i <= packages@.len(),
            file@.map_values(|p: Vec<char>| p@) == components(file_path@),
            match owner_upto(packages@, file_path@, i as int) {
                Some(k) => best == Some(k as usize) && 0 <= k < i && best_len == components(
                    packages@[k].path@,
                ).len(),
                None => best is None,
            },
        decreases packages@.len() - i,
    {
        let p = &packages[i];
        let comps = path_components(p.path.as_str());
        let owned = p.path.as_str().unicode_len() == 0 || components_prefix(&comps, &file);
        if owned {
            match best {
                None => {
                    best = Some(i);
                    best_len = comps.len();
                },
                Some(_) => {
                    if comps.len() >= best_len {
                        best = Some(i);
                        best_len = comps.len();
                    }
                },
            }
        }
        i = i + 1;
    }
    best
}

/// The package a file belongs to: the most specific package whose directory
/// contains the file (the last one among equally specific ones).
pub fn file_to_package<'a>(file_path: &str, packages: &'a [Package]) -> (res: Option<&'a Package>)
    ensures
        match owner_index(packages@, file_path@) {
            Some(k) => res == Some(&packages@[k]),
            None => res is None,
        },
{
    match owner_of(file_path, packages) {
        Some(k) => Some(&packages[k]),
        None => None,
    }
}

// ---------------------------------------------------------------------------
// Dependency order
// ---------------------------------------------------------------------------

/// The package a dependency name refers to: the last package with that name.
pub open spec fn index_of_name(pkgs: Seq<Package>, name: Seq<char>) -> Option<int>
    decreases pkgs.len(),
{
    if pkgs.len() == 0 {
        None
    } else if pkgs.last().name@ == name {
        Some(pkgs.len() - 1)
    } else {
        index_of_name(pkgs.drop_last(), name)
    }
}

/// Package `i` has a local dependency on package `j`.
pub open spec fn depends_on(pkgs: Seq<Package>, i: int, j: int) -> bool {
    exists|d: int|
        0 <= d < pkgs[i].local_dependencies@.len() && index_of_name(
            pkgs,
            (#[trigger] pkgs[i].local_dependencies@[d]).0@,
        ) == Some(j)
}

/// `i` occurs in `order`.
pub open spec fn appears(order: Seq<int>, i: int) -> bool {
    exists|x: int| 0 <= x < order.len() && order[x] == i
}

/// `order` lists every package index once, each after all the packages it
/// depends on.
pub open spec fn is_topo_order(pkgs: Seq<Package>, order: Seq<int>) -> bool {
    &&& order.len() == pkgs.len()
    &&& forall|x: int| 0 <= x < order.len() ==> 0 <= #[trigger] order[x] < pkgs.len()
    &&& forall|i: int| 0 <= i < pkgs.len() ==> #[trigger] appears(order, i)
    &&& forall|x: int, y: int| 0 <= x < y < order.len() ==> #[trigger] order[x] != #[trigger] order[y]
    &&& forall|x: int, y: int|
        0 <= x < order.len() && 0 <= y < order.len() && depends_on(pkgs, #[trigger] order[y], #[trigger] order[x])
            ==> x < y
}

pub proof fn lemma_index_of_name(pkgs: Seq<Package>, name: Seq<char>)
    ensures
        index_of_name(pkgs, name) matches Some(k) ==> 0 <= k < pkgs.len() && pkgs[k].name@ == name,
    decreases pkgs.len(),
{
    if pkgs.len() > 0 && pkgs.last().name@ != name {
        lemma_index_of_name(pkgs.drop_last(), name);
    }
}

/// The package a dependency name refers to.
pub fn resolve_index(pkgs: &[Package], name: &str) -> (res: Option<usize>)
    ensures
        match res {
            Some(k) => index_of_name(pkgs@, name@) == Some(k as int),
            None => index_of_name(pkgs@, name@) is None,
        },
{
    let mut i: usize = pkgs.len();
    assert(pkgs@.take(i as int) =~= pkgs@);
    while i > 0
        invariant
            i <= pkgs@.len(),
            index_of_name(pkgs@, name@) == index_of_name(pkgs@.take(i as int), name@),
        decreases i,
    {
        let ghost t = pkgs@.take(i as int);
        assert(t.last() == pkgs@[i - 1]);
        if str_eq(pkgs[i - 1].name.as_str(), name) {
            return Some(i - 1);
        }
        assert(t.drop_last() =~= pkgs@.take(i - 1));
        i = i - 1;
    }
    None
}

/// Every package that package `i` depends on is done.
pub open spec fn deps_ready(pkgs: Seq<Package>, done: Seq<bool>, i: int) -> bool {
    forall|j: int| #[trigger] depends_on(pkgs, i, j) ==> 0 <= j < done.len() && done[j]
}

/// Whether every package that package `i` depends on is done.
fn deps_done(pkgs: &[Package], done: &Vec<bool>, i: usize) -> (res: bool)
    requires
        i < pkgs@.len(),
        done@.len() == pkgs@.len(),
    ensures
        res == deps_ready(pkgs@, done@, i as int),
{
    let deps = &pkgs[i].local_dependencies;
    let mut d: usize = 0;
    while d < deps.len()
        invariant
            d <= deps@.len(),
            i < pkgs@.len(),
            done@.len() == pkgs@.len(),
            deps@ == pkgs@[i as int].local_dependencies@,
            forall|e: int|
                0 <= e < d ==> match index_of_name(pkgs@, (#[trigger] deps@[e]).0@) {
                    Some(j) => 0 <= j < done@.len() && done@[j],
                    None => true,
                },
        decreases deps@.len() - d,
    {
        proof {
            lemma_index_of_name(pkgs@, deps@[d as int].0@);
        }
        match resolve_index(pkgs, deps[d].0.as_str()) {
            Some(j) => {
                if !done[j] {
                    assert(depends_on(pkgs@, i as int, j as int)) by {
                        assert(pkgs@[i as int].local_dependencies@[d as int] == deps@[d as int]);
                    }
                    return false;
                }
            },
            None => {},
        }
        d = d + 1;
    }
    proof {
        assert forall|j: int| depends_on(pkgs@, i as int, j) implies 0 <= j < done@.len() && done@[j] by {
            let e = choose|e: int|
                0 <= e < pkgs@[i as int].local_dependencies@.len() && index_of_name(
                    pkgs@,
                    (#[trigger] pkgs@[i as int].local_dependencies@[e]).0@,
                ) == Some(j);
            assert(deps@[e] == pkgs@[i as int].local_dependencies@[e]);
        }
    }
    true
}

pub open spec fn count_true(s: Seq<bool>) -> nat
    decreases s.len(),
{
    if s.len() == 0 {
        0
    } else {
        count_true(s.drop_last()) + if s.last() {
            1nat
        } else {
            0nat
        }
    }
}

proof fn lemma_count_update(s: Seq<bool>, i: int)
    requires
        0 <= i < s.len(),
        !s[i],
    ensures
        count_true(s.update(i, true)) == count_true(s) + 1,
    decreases s.len(),
{
    if i < s.len() - 1 {
        lemma_count_update(s.drop_last(), i);
        assert(s.update(i, true).drop_last() =~= s.drop_last().update(i, true));
    } else {
        assert(s.update(i, true).drop_last() =~= s.drop_last());
    }
}

proof fn lemma_count_bound(s: Seq<bool>)
    ensures
        count_true(s) <= s.len(),
        count_true(s) == s.len() ==> forall|i: int| 0 <= i < s.len() ==> s[i],
        count_true(s) < s.len() ==> exists|i: int| 0 <= i < s.len() && !s[i],
    decreases s.len(),
{
    if s.len() > 0 {
        let t = s.drop_last();
        lemma_count_bound(t);
        if count_true(s) == s.len() {
            assert(s.last());
            assert(count_true(t) == t.len());
            assert forall|i: int| 0 <= i < s.len() implies s[i] by {
                if i < t.len() {
                    assert(t[i] == s[i]);
                }
            }
        }
        if count_true(s) < s.len() {
            if s.last() {
                let i = choose|i: int| 0 <= i < t.len() && !t[i];
                assert(s[i] == t[i]);
            } else {
                assert(!s[s.len() - 1]);
            }
        }
    }
}

proof fn lemma_first_undone(order: Seq<int>, done: Seq<bool>, x: int) -> (m: int)
    requires
        0 <= x < order.len(),
        forall|y: int| 0 <= y < order.len() ==> 0 <= #[trigger] order[y] < done.len(),
        !done[order[x]],
    ensures
        0 <= m <= x,
        !done[order[m]],
        forall|y: int| 0 <= y < m ==> done[#[trigger] order[y]],
    decreases x,
{
    if exists|y: int| 0 <= y < x && !done[#[trigger] order[y]] {
        let y = choose|y: int| 0 <= y < x && !done[#[trigger] order[y]];
        lemma_first_undone(order, done, y)
    } else {
        x
    }
}

/// When every unfinished package depends on an unfinished package, no order
/// can put each package after its dependencies.
proof fn lemma_depends_range(pkgs: Seq<Package>, i: int, j: int)
    requires
        depends_on(pkgs, i, j),
    ensures
        0 <= j < pkgs.len(),
{
    let d = choose|d: int|
        0 <= d < pkgs[i].local_dependencies@.len() && index_of_name(
            pkgs,
            (#[trigger] pkgs[i].local_dependencies@[d]).0@,
        ) == Some(j);
    lemma_index_of_name(pkgs, pkgs[i].local_dependencies@[d].0@);
}

#[verifier::rlimit(30)]
proof fn lemma_stuck_no_order(pkgs: Seq<Package>, done: Seq<bool>, order: Seq<int>, i0: int)
    requires
        done.len() == pkgs.len(),
        0 <= i0 < pkgs.len(),
        !done[i0],
        forall|i: int|
            0 <= i < pkgs.len() && !done[i] ==> exists|j: int|
                0 <= j < pkgs.len() && !done[j] && #[trigger] depends_on(pkgs, i, j),
    ensures
        !is_topo_order(pkgs, order),
{
    if !is_topo_order(pkgs, order) {
        return;
    }
    assert(appears(order, i0));
    let x0 = choose|x: int| 0 <= x < order.len() && order[x] == i0;
    let m = lemma_first_undone(order, done, x0);
    let i = order[m];
    assert(0 <= i < pkgs.len() && !done[i]);
    let j = choose|j: int| 0 <= j < pkgs.len() && !done[j] && #[trigger] depends_on(pkgs, i, j);
    assert(appears(order, j));
    let y = choose|y: int| 0 <= y < order.len() && order[y] == j;
    assert(depends_on(pkgs, order[m], order[y]));
    assert(y < m);
    assert(done[order[y]]);
}

/// Why packages cannot be ordered.
#[derive(Debug, Clone, Copy, PartialEq, Eq, Structural)]
pub enum OrderError {
    /// The local dependencies form a cycle.
    CircularDependency,
}

/// The names of packages in an order where every package comes after the
/// packages it depends on; an error exactly when no such order exists (the
/// local dependencies form a cycle).
pub fn topological_sort(packages: &[Package]) -> (res: Result<Vec<String>, OrderError>)
    ensures
        match res {
            Ok(names) => exists|order: Seq<int>|
                is_topo_order(packages@, order) && crate::text::views(names@) == order.map_values(
                    |k: int| packages@[k].name@,
                ),
            Err(_) => !exists|order: Seq<int>| is_topo_order(packages@, order),
        },
{
    let n = packages.len();
    let mut done: Vec<bool> = Vec::new();
    let mut k: usize = 0;
    while k < n
        invariant
            k <= n == packages@.len(),
            done@.len() == k,
            forall|j: int| 0 <= j < k ==> !done@[j],
        decreases n - k,
    {
        done.push(false);
        k = k + 1;
    }
    proof {
        assert forall|m: nat| m <= done@.len() implies count_true(#[trigger] done@.take(m as int)) == 0 by {
            lemma_count_zero(done@.take(m as int));
        }
        assert(done@.take(done@.len() as int) =~= done@);
    }
    let mut order: Vec<usize> = Vec::new();
    let ghost mut ord: Seq<int> = Seq::empty();
    let mut stuck = false;
    while order.len() < n
        invariant_except_break
            !stuck,
        invariant
            n == packages@.len(),
            done@.len() == n,
            order@.len() <= n,
            ord == order@.map_values(|v: usize| v as int),
            count_true(done@) == order@.len(),
            forall|x: int| 0 <= x < ord.len() ==> 0 <= #[trigger] ord[x] < n && done@[ord[x]],
            forall|i: int| 0 <= i < n && done@[i] ==> exists|x: int| 0 <= x < ord.len() && #[trigger] ord[x] == i,
            forall|x: int, y: int| 0 <= x < y < ord.len() ==> #[trigger] ord[x] != #[trigger] ord[y],
            forall|x: int, j: int|
                0 <= x < ord.len() && #[trigger] depends_on(packages@, ord[x], j) ==> exists|y: int|
                    0 <= y < x && #[trigger] ord[y] == j,
        ensures
            stuck ==> forall|i: int|
                0 <= i < n && !done@[i] ==> exists|j: int|
                    0 <= j < n && !done@[j] && #[trigger] depends_on(packages@, i, j),
            stuck ==> order@.len() < n,
            !stuck ==> order@.len() == n,
        decreases n - order@.len(),
    {
        let mut pick: Option<usize> = None;
        let mut i: usize = n;
        while i > 0
            invariant_except_break
                pick is None,
            invariant
                i <= n == packages@.len(),
                done@.len() == n,
                forall|q: int|
                    i <= q < n && !done@[q] ==> exists|j: int|
                        0 <= j < n && !done@[j] && #[trigger] depends_on(packages@, q, j),
            ensures
                pick matches Some(p) ==> p < n && !done@[p as int] && deps_ready(
                    packages@,
                    done@,
                    p as int,
                ),
                pick is None ==> forall|q: int|
                    0 <= q < n && !done@[q] ==> exists|j: int|
                        0 <= j < n && !done@[j] && #[trigger] depends_on(packages@, q, j),
            decreases i,
        {
            let c = i - 1;
            if !done[c] {
                let ready = deps_done(packages, &done, c);
                if ready {
                    pick = Some(c);
                    break;
                }
                proof {
                    lemma_not_ready(packages@, done@, c as int);
                }
            }
            i = i - 1;
        }
        match pick {
            Some(p) => {
                proof {
                    lemma_count_update(done@, p as int);
                }
                let ghost ord0 = ord;
                let ghost done0 = done@;
                done.set(p, true);
                order.push(p);
                proof {
                    ord = ord0.push(p as int);
                    assert(order@.map_values(|v: usize| v as int) =~= ord);
                    assert forall|q: int| 0 <= q < n && done@[q] implies exists|x: int|
                        0 <= x < ord.len() && #[trigger] ord[x] == q by {
                        if q == p as int {
                            assert(ord[ord.len() - 1] == q);
                        } else {
                            let x = choose|x: int| 0 <= x < ord0.len() && #[trigger] ord0[x] == q;
                            assert(ord[x] == q);
                        }
                    }
                    assert forall|x: int, y: int| 0 <= x < y < ord.len() implies #[trigger] ord[x]
                        != #[trigger] ord[y] by {
                        if y == ord.len() - 1 {
                            assert(done@[ord0[x]] || ord0[x] == p as int);
                        }
                    }
                    assert forall|x: int, j: int|
                        0 <= x < ord.len() && #[trigger] depends_on(packages@, ord[x], j) implies exists|y: int|
                            0 <= y < x && #[trigger] ord[y] == j by {
                        if x == ord.len() - 1 {
                            assert(done0[j]);
                            assert(done@[j]);
                            let y = choose|y: int| 0 <= y < ord.len() && #[trigger] ord[y] == j;
                            if y == x {
                                assert(j == p as int);
                            }
                        } else {
                            assert(ord[x] == ord0[x]);
                            let y = choose|y: int| 0 <= y < x && #[trigger] ord0[y] == j;
                            assert(ord[y] == j);
                        }
                    }
                }
            },
            None => {
                stuck = true;
                break;
            },
        }
    }
    if stuck {
        proof {
            lemma_count_bound(done@);
            let i0 = choose|i: int| 0 <= i < done@.len() && !done@[i];
            assert forall|o: Seq<int>| !is_topo_order(packages@, o) by {
                lemma_stuck_no_order(packages@, done@, o, i0);
            }
        }
        return Err(OrderError::CircularDependency);
    }
    let mut names: Vec<String> = Vec::new();
    let mut x: usize = 0;
    while x < order.len()
        invariant
            x <= order@.len(),
            order@.len() == n == packages@.len(),
            ord == order@.map_values(|v: usize| v as int),
            forall|z: int| 0 <= z < ord.len() ==> 0 <= #[trigger] ord[z] < n,
            crate::text::views(names@) =~= ord.take(x as int).map_values(|k: int| packages@[k].name@),
        decreases order@.len() - x,
    {
        let ghost n0 = names@;
        assert(ord[x as int] == order@[x as int] as int);
        names.push(packages[order[x]].name.clone());
        assert(crate::text::views(names@) =~= crate::text::views(n0).push(packages@[ord[x as int]].name@));
        x = x + 1;
        assert(ord.take(x as int) =~= ord.take(x - 1).push(ord[x - 1]));
    }
    proof {
        lemma_count_bound(done@);
        assert(ord.take(x as int) =~= ord);
        assert forall|i: int| 0 <= i < packages@.len() implies #[trigger] appears(ord, i) by {
            assert(done@[i]);
        }
        assert forall|x: int, y: int|
            0 <= x < ord.len() && 0 <= y < ord.len() && depends_on(packages@, #[trigger] ord[y], #[trigger] ord[x])
                implies x < y by {
            let z = choose|z: int| 0 <= z < y && #[trigger] ord[z] == ord[x];
            if z != x {
                if z < x {
                    assert(ord[z] != ord[x]);
                } else {
                    assert(ord[x] != ord[z]);
                }
            }
        }
        assert(is_topo_order(packages@, ord));
    }
    Ok(names)
}

proof fn lemma_not_ready(pkgs: Seq<Package>, done: Seq<bool>, c: int)
    requires
        done.len() == pkgs.len(),
        0 <= c < pkgs.len(),
        !deps_ready(pkgs, done, c),
    ensures
        exists|j: int| 0 <= j < pkgs.len() && !done[j] && #[trigger] depends_on(pkgs, c, j),
{
    assert(exists|j: int| #[trigger] depends_on(pkgs, c, j) && !(0 <= j < done.len() && done[j])) by {
        if !exists|j: int| #[trigger] depends_on(pkgs, c, j) && !(0 <= j < done.len() && done[j]) {
            assert(deps_ready(pkgs, done, c));
        }
    }
    let j = choose|j: int| #[trigger] depends_on(pkgs, c, j) && !(0 <= j < done.len() && done[j]);
    lemma_depends_range(pkgs, c, j);
}

proof fn lemma_count_zero(s: Seq<bool>)
    requires
        forall|i: int| 0 <= i < s.len() ==> !s[i],
    ensures
        count_true(s) == 0,
    decreases s.len(),
{
    if s.len() > 0 {
        lemma_count_zero(s.drop_last());
    }
}

} // verus!
