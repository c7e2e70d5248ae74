//! Package managers: which one a repository uses and how it publishes.
use vstd::prelude::*;

use crate::text::{chars_of, str_eq, string_from, take_until, take_until_char, views};

verus! {

/// Supported package managers.
#[derive(Debug, Clone, Copy, PartialEq, Eq, Structural)]
pub enum PackageManager {
    Npm,
    Yarn,
    Pnpm,
}

impl PackageManager {
    pub open spec fn name_spec(self) -> Seq<char> {
        match self {
            PackageManager::Npm => "npm"@,
            PackageManager::Yarn => "yarn"@,
            PackageManager::Pnpm => "pnpm"@,
        }
    }

    /// The base command name.
    pub fn command_name(&self) -> (res: &'static str)
        ensures
            res@ == self.name_spec(),
    {
        match self {
            PackageManager::Npm => "npm",
            PackageManager::Yarn => "yarn",
            PackageManager::Pnpm => "pnpm",
        }
    }

    /// The name, as it is displayed.
    pub fn to_string(&self) -> (res: String)
        ensures
            res@ == self.name_spec(),
    {
        crate::text::owned_string(self.command_name())
    }

    /// Detection: the `packageManager` field of the root manifest (corepack
    /// convention) wins; then `pnpm-lock.yaml`, then `yarn.lock`; npm
    /// otherwise.
    pub fn detect(package_manager_field: Option<&str>, has_pnpm_lock: bool, has_yarn_lock: bool) -> (res: PackageManager)
        ensures
            res == detect_spec(
                match package_manager_field {
                    Some(f) => Some(f@),
                    None => None,
                },
                has_pnpm_lock,
                has_yarn_lock,
            ),
    {
        match package_manager_field {
            Some(f) => match from_package_manager_field(f) {
                Some(pm) => {
                    return pm;
                },
                None => {},
            },
            None => {},
        }
        if has_pnpm_lock {
            PackageManager::Pnpm
        } else if has_yarn_lock {
            PackageManager::Yarn
        } else {
            PackageManager::Npm
        }
    }
}

/// The manager a `packageManager` field names (`"yarn@4.0.0"` or `"yarn"`).
pub open spec fn field_spec(field: Seq<char>) -> Option<PackageManager> {
    let name = take_until(field, '@');
    if name == "yarn"@ {
        Some(PackageManager::Yarn)
    } else if name == "pnpm"@ {
        Some(PackageManager::Pnpm)
    } else if name == "npm"@ {
        Some(PackageManager::Npm)
    } else {
        None
    }
}

pub open spec fn detect_spec(field: Option<Seq<char>>, has_pnpm_lock: bool, has_yarn_lock: bool) -> PackageManager {
    match (match field {
        Some(f) => field_spec(f),
        None => None,
    }) {
        Some(pm) => pm,
        None => if has_pnpm_lock {
            PackageManager::Pnpm
        } else if has_yarn_lock {
            PackageManager::Yarn
        } else {
            PackageManager::Npm
        },
    }
}

/// The manager a `packageManager` field names.
pub fn from_package_manager_field(field: &str) -> (res: Option<PackageManager>)
    ensures
        res == field_spec(field@),
{
    let c = chars_of(field);
    let name = take_until_char(&c, '@');
    let n = string_from(&name);
    if str_eq(n.as_str(), "yarn") {
        Some(PackageManager::Yarn)
    } else if str_eq(n.as_str(), "pnpm") {
        Some(PackageManager::Pnpm)
    } else if str_eq(n.as_str(), "npm") {
        Some(PackageManager::Npm)
    } else {
        None
    }
}

pub open spec fn opt_arg(args: Seq<Seq<char>>, flag: Seq<char>, value: Option<Seq<char>>) -> Seq<Seq<char>> {
    match value {
        Some(x) => args + seq![flag, x],
        None => args,
    }
}

/// The arguments of a publish before the extra ones: the manager's publish
/// command, then `--access`, `--registry`, `--tag` when given,
/// `--provenance` when asked, and `--no-git-checks` for pnpm.
pub open spec fn publish_prefix_spec(pm: PackageManager, access: Option<Seq<char>>, registry: Option<Seq<char>>, tag: Option<Seq<char>>, provenance: bool) -> Seq<Seq<char>> {
    let base = match pm {
        PackageManager::Yarn => seq!["npm"@, "publish"@],
        _ => seq!["publish"@],
    };
    let t = opt_arg(opt_arg(opt_arg(base, "--access"@, access), "--registry"@, registry), "--tag"@, tag);
    let p = if provenance {
        t + seq!["--provenance"@]
    } else {
        t
    };
    match pm {
        PackageManager::Pnpm => p + seq!["--no-git-checks"@],
        _ => p,
    }
}

pub open spec fn opt_view_str(o: Option<&str>) -> Option<Seq<char>> {
    match o {
        Some(x) => Some(x@),
        None => None,
    }
}

fn push_str(v: &mut Vec<String>, s: &str)
    ensures
        views(final(v)@) == views(old(v)@).push(s@),
{
    let ghost v0 = v@;
    v.push(crate::text::owned_string(s));
    assert(views(v@) =~= views(v0).push(s@));
}

fn push_opt(v: &mut Vec<String>, flag: &str, value: Option<&str>)
    ensures
        views(final(v)@) == opt_arg(views(old(v)@), flag@, opt_view_str(value)),
{
    if let Some(x) = value {
        let ghost v0 = views(v@);
        push_str(v, flag);
        push_str(v, x);
        assert(views(v@) =~= v0 + seq![flag@, x@]);
    }
}

fn publish_prefix(pm: PackageManager, access: Option<&str>, registry: Option<&str>, tag: Option<&str>, provenance: bool) -> (res: Vec<String>)
    ensures
        views(res@) == publish_prefix_spec(pm, opt_view_str(access), opt_view_str(registry), opt_view_str(tag), provenance),
{
    let mut args: Vec<String> = Vec::new();
    match pm {
        PackageManager::Yarn => {
            push_str(&mut args, "npm");
            push_str(&mut args, "publish");
            assert(views(args@) =~= seq!["npm"@, "publish"@]);
        },
        _ => {
            push_str(&mut args, "publish");
            assert(views(args@) =~= seq!["publish"@]);
        },
    }
    push_opt(&mut args, "--access", access);
    push_opt(&mut args, "--registry", registry);
    push_opt(&mut args, "--tag", tag);
    if provenance {
        let ghost v0 = views(args@);
        push_str(&mut args, "--provenance");
        assert(views(args@) =~= v0 + seq!["--provenance"@]);
    }
    match pm {
        PackageManager::Pnpm => {
            let ghost v0 = views(args@);
            push_str(&mut args, "--no-git-checks");
            assert(views(args@) =~= v0 + seq!["--no-git-checks"@]);
        },
        _ => {},
    }
    args
}

/// The program and arguments that publish a package with the manager: the
/// publish arguments, then the extra ones.
pub fn publish_command(pm: PackageManager, access: Option<&str>, registry: Option<&str>, tag: Option<&str>, provenance: bool, extra_args: &Vec<String>) -> (res: (String, Vec<String>))
    ensures
        res.0@ == pm.name_spec(),
        views(res.1@) == publish_prefix_spec(pm, opt_view_str(access), opt_view_str(registry), opt_view_str(tag), provenance) + views(extra_args@),
{
    let mut args = publish_prefix(pm, access, registry, tag, provenance);
    let ghost before = views(args@);
    let mut i: usize = 0;
    while i < extra_args.len()
        invariant
            i <= extra_args@.len(),
            views(args@) == before + views(extra_args@).take(i as int),
        decreases extra_args@.len() - i,
    {
        let ghost a0 = views(args@);
        args.push(extra_args[i].clone());
        assert(views(args@) =~= a0.push(extra_args@[i as int]@));
        assert(views(extra_args@).take((i + 1) as int) =~= views(extra_args@).take(i as int).push(extra_args@[i as int]@));
        i = i + 1;
    }
    assert(views(extra_args@).take(extra_args@.len() as int) =~= views(extra_args@));
    (pm.to_string(), args)
}

} // verus!
