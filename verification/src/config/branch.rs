//! Release branches: which branches release, on which channel, and what a
//! maintenance branch locks.
use vstd::prelude::*;

use crate::config::{glob_match, glob_match_of};
use crate::text::{chars_of, parse_u64, parse_u64_spec, split_char, split_chars, string_from};

verus! {

/// A release branch: a bare name (stable) or a full definition.
///
/// Branches can be stable (`main`), prerelease (`beta`, or the branch name
/// itself as channel) or maintenance (`1.x`, `1.5.x`).
#[derive(Debug)]
pub enum BranchConfig {
    Name(String),
    Full(BranchDef),
}

#[derive(Debug)]
pub struct BranchDef {
    /// Branch name or glob pattern.
    pub name: String,
    /// `true`: the branch name is the channel; a string: a fixed channel;
    /// absent or `false`: stable releases.
    pub prerelease: PrereleaseSetting,
    pub maintenance: bool,
    /// Version range for maintenance branches (`"1.x"`, `"1.5.x"`); inferred
    /// from the branch name when absent.
    pub range: Option<String>,
    /// Glob patterns of the packages released on this branch; empty = all.
    pub packages: Vec<String>,
}

#[derive(Debug)]
pub enum PrereleaseSetting {
    Disabled,
    Flag(bool),
    Channel(String),
}

impl Default for PrereleaseSetting {
    fn default() -> (res: Self)
        ensures
            res is Disabled,
    {
        PrereleaseSetting::Disabled
    }
}

impl BranchConfig {
    pub open spec fn name_spec(self) -> Seq<char> {
        match self {
            BranchConfig::Name(n) => n@,
            BranchConfig::Full(def) => def.name@,
        }
    }

    /// The channel a release on `actual_branch` goes to, `None` for stable.
    pub open spec fn prerelease_spec(self, actual_branch: Seq<char>) -> Option<Seq<char>> {
        match self {
            BranchConfig::Name(_) => None,
            BranchConfig::Full(def) => match def.prerelease {
                PrereleaseSetting::Disabled => None,
                PrereleaseSetting::Flag(b) => if b {
                    Some(actual_branch)
                } else {
                    None
                },
                PrereleaseSetting::Channel(ch) => Some(ch@),
            },
        }
    }

    pub open spec fn maintenance_spec(self) -> bool {
        match self {
            BranchConfig::Name(_) => false,
            BranchConfig::Full(def) => def.maintenance,
        }
    }

    pub open spec fn range_spec(self) -> Option<Seq<char>> {
        match self {
            BranchConfig::Name(_) => None,
            BranchConfig::Full(def) => match def.range {
                Some(r) => Some(r@),
                None => None,
            },
        }
    }

    pub open spec fn packages_spec(self) -> Seq<String> {
        match self {
            BranchConfig::Name(_) => Seq::empty(),
            BranchConfig::Full(def) => def.packages@,
        }
    }

    pub fn name(&self) -> (res: &str)
        ensures
            res@ == self.name_spec(),
    {
        match self {
            BranchConfig::Name(n) => n.as_str(),
            BranchConfig::Full(def) => def.name.as_str(),
        }
    }

    pub fn resolve_prerelease(&self, actual_branch: &str) -> (res: Option<String>)
        ensures
            crate::matcher::opt_view(res) == self.prerelease_spec(actual_branch@),
    {
        match self {
            BranchConfig::Name(_) => None,
            BranchConfig::Full(def) => match &def.prerelease {
                PrereleaseSetting::Disabled => None,
                PrereleaseSetting::Flag(b) => {
                    if *b {
                        let c = chars_of(actual_branch);
                        Some(string_from(&c))
                    } else {
                        None
                    }
                },
                PrereleaseSetting::Channel(ch) => Some(ch.clone()),
            },
        }
    }

    pub fn is_maintenance(&self) -> (res: bool)
        ensures
            res == self.maintenance_spec(),
    {
        match self {
            BranchConfig::Name(_) => false,
            BranchConfig::Full(def) => def.maintenance,
        }
    }

    pub fn range(&self) -> (res: Option<&str>)
        ensures
            match res {
                Some(r) => self.range_spec() == Some(r@),
                None => self.range_spec() is None,
            },
    {
        match self {
            BranchConfig::Name(_) => None,
            BranchConfig::Full(def) => match &def.range {
                Some(r) => Some(r.as_str()),
                None => None,
            },
        }
    }

    pub fn packages(&self) -> (res: &[String])
        ensures
            res@ == self.packages_spec(),
    {
        match self {
            BranchConfig::Name(_) => &[],
            BranchConfig::Full(def) => def.packages.as_slice(),
        }
    }
}

/// What a maintenance branch locks.
#[derive(Debug, Clone, Copy, PartialEq, Eq, Structural)]
pub enum MaintenanceRange {
    /// `1.x`: major is locked, minor bumps are allowed.
    Major(u64),
    /// `1.5.x`: major and minor are locked, only patch bumps.
    MajorMinor(u64, u64),
}

pub open spec fn is_wildcard(s: Seq<char>) -> bool {
    s == seq!['x'] || s == seq!['*']
}

/// `N.x` / `N.*` locks the major, `N.M.x` / `N.M.*` the major and minor; any
/// other name gives no range.
pub open spec fn maintenance_range_spec(name: Seq<char>) -> Option<MaintenanceRange> {
    let parts = split_char(name, '.');
    if parts.len() == 2 && is_wildcard(parts[1]) {
        match parse_u64_spec(parts[0]) {
            Some(m) => Some(MaintenanceRange::Major(m)),
            None => None,
        }
    } else if parts.len() == 3 && is_wildcard(parts[2]) {
        match (parse_u64_spec(parts[0]), parse_u64_spec(parts[1])) {
            (Some(m), Some(n)) => Some(MaintenanceRange::MajorMinor(m, n)),
            _ => None,
        }
    } else {
        None
    }
}

fn is_wildcard_exec(s: &Vec<char>) -> (res: bool)
    ensures
        res == is_wildcard(s@),
{
    if s.len() == 1 && (s[0] == 'x' || s[0] == '*') {
        assert(s@ =~= seq![s@[0]]);
        true
    } else {
        proof {
            if s@ == seq!['x'] || s@ == seq!['*'] {
                assert(s@.len() == 1);
            }
        }
        false
    }
}

/// Parses a maintenance branch name like `1.x` or `1.5.x` into a range.
pub fn parse_maintenance_range(branch_name: &str) -> (res: Option<MaintenanceRange>)
    ensures
        res == maintenance_range_spec(branch_name@),
{
    let chars = chars_of(branch_name);
    let parts = split_chars(&chars, '.');
    let ghost views = parts@.map_values(|p: Vec<char>| p@);
    assert(views == split_char(branch_name@, '.'));
    if parts.len() == 2 && is_wildcard_exec(&parts[1]) {
        assert(views[1] == parts@[1]@);
        assert(views[0] == parts@[0]@);
        match parse_u64(&parts[0]) {
            Some(m) => Some(MaintenanceRange::Major(m)),
            None => None,
        }
    } else if parts.len() == 3 && is_wildcard_exec(&parts[2]) {
        assert(views[2] == parts@[2]@);
        assert(views[1] == parts@[1]@);
        assert(views[0] == parts@[0]@);
        match (parse_u64(&parts[0]), parse_u64(&parts[1])) {
            (Some(m), Some(n)) => Some(MaintenanceRange::MajorMinor(m, n)),
            _ => None,
        }
    } else {
        proof {
            if parts.len() == 2 {
                assert(views[1] == parts@[1]@);
            }
            if parts.len() == 3 {
                assert(views[2] == parts@[2]@);
            }
        }
        None
    }
}

/// The resolved branch context for the current HEAD.
#[derive(Debug)]
pub struct BranchContext {
    pub branch_name: String,
    pub prerelease: Option<String>,
    pub maintenance: bool,
    /// The maintenance range (`1.x` gives `Major(1)`).
    pub maintenance_range: Option<MaintenanceRange>,
    /// Package include filter from the branch config; empty = all packages.
    pub packages: Vec<String>,
}

/// Index of the first branch config whose name pattern matches `branch`.
pub open spec fn first_matching_branch(branches: Seq<BranchConfig>, branch: Seq<char>) -> Option<int>
    decreases branches.len(),
{
    if branches.len() == 0 {
        None
    } else if glob_match_of(branches[0].name_spec(), branch) {
        Some(0int)
    } else {
        match first_matching_branch(branches.drop_first(), branch) {
            Some(k) => Some(k + 1),
            None => None,
        }
    }
}

/// The context a matching branch config gives `branch`.
pub open spec fn context_matches(ctx: BranchContext, bc: BranchConfig, branch: Seq<char>) -> bool {
    let maintenance = bc.maintenance_spec();
    let source = match bc.range_spec() {
        Some(r) => r,
        None => branch,
    };
    &&& ctx.branch_name@ == branch
    &&& crate::matcher::opt_view(ctx.prerelease) == bc.prerelease_spec(branch)
    &&& ctx.maintenance == maintenance
    &&& ctx.maintenance_range == (if maintenance {
        maintenance_range_spec(source)
    } else {
        None
    })
    &&& ctx.packages@ == bc.packages_spec()
}

/// Where a maintenance range comes from: a branch config's own `range`
/// decides when it has one, the branch name otherwise; a branch that is not
/// a maintenance branch has no range.
pub proof fn law_maintenance_range_source(ctx: BranchContext, bc: BranchConfig, branch: Seq<char>)
    requires
        context_matches(ctx, bc, branch),
    ensures
        match bc {
            BranchConfig::Full(def) => ctx.maintenance == def.maintenance && (def.maintenance ==> ctx.maintenance_range
                == match def.range {
                Some(r) => maintenance_range_spec(r@),
                None => maintenance_range_spec(branch),
            }),
            BranchConfig::Name(_) => !ctx.maintenance,
        },
        !ctx.maintenance ==> ctx.maintenance_range is None,
{
}

/// Resolves `branch_name` against the branch configs: the first config whose
/// name pattern matches decides; `None` when no config matches.
pub fn resolve_branch_context_for(branches: &Vec<BranchConfig>, branch_name: &str) -> (res: Option<BranchContext>)
    ensures
        match first_matching_branch(branches@, branch_name@) {
            Some(k) => res matches Some(ctx) && context_matches(ctx, branches@[k], branch_name@),
            None => res is None,
        },
{
    let mut i: usize = 0;
    assert(branches@.skip(0) =~= branches@);
    while i < branches.len()
        invariant
            i <= branches.len(),
            first_matching_branch(branches@, branch_name@) == match first_matching_branch(
                branches@.skip(i as int),
                branch_name@,
            ) {
                Some(k) => Some(k + i),
                None => None,
            },
        decreases branches.len() - i,
    {
        let bc = &branches[i];
        assert(branches@.skip(i as int)[0] == branches@[i as int]);
        assert(branches@.skip(i as int).drop_first() =~= branches@.skip(i + 1));
        if glob_match(bc.name(), branch_name) {
            let maintenance = bc.is_maintenance();
            let maintenance_range = if maintenance {
                match bc.range() {
                    Some(r) => parse_maintenance_range(r),
                    None => parse_maintenance_range(branch_name),
                }
            } else {
                None
            };
            let name_chars = chars_of(branch_name);
            let packages = bc.packages();
            let mut pk: Vec<String> = Vec::new();
            let mut j: usize = 0;
            while j < packages.len()
                invariant
                    j <= packages@.len(),
                    pk@ == packages@.take(j as int),
                decreases packages@.len() - j,
            {
                pk.push(packages[j].clone());
                j = j + 1;
                assert(pk@ =~= packages@.take(j as int));
            }
            assert(packages@.take(packages@.len() as int) =~= packages@);
            return Some(
                BranchContext {
                    prerelease: bc.resolve_prerelease(branch_name),
                    branch_name: string_from(&name_chars),
                    maintenance,
                    maintenance_range,
                    packages: pk,
                },
            );
        }
        i = i + 1;
    }
    None
}

} // verus!
