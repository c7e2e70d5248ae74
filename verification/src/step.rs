//! Release steps: what each step is, and where it runs.
use vstd::prelude::*;

pub mod exec;
pub mod github;
pub mod npm;
pub mod subprocess;

use crate::config::branch::BranchContext;
use crate::config::Config;
use crate::matcher::opt_view;
use crate::text::str_eq;

verus! {

/// Context passed to steps during execution.
pub struct StepContext<'a> {
    pub repo_root: &'a str,
    pub dry_run: bool,
    pub branch: &'a BranchContext,
    pub cfg: &'a Config,
}

/// The steps the release knows.
#[derive(Debug, Clone, Copy, PartialEq, Eq, Structural)]
pub enum StepKind {
    Changelog,
    Exec,
    Github,
    Npm,
}

impl StepKind {
    pub open spec fn name_spec(self) -> Seq<char> {
        match self {
            StepKind::Changelog => "changelog"@,
            StepKind::Exec => "exec"@,
            StepKind::Github => "github"@,
            StepKind::Npm => "npm"@,
        }
    }

    /// The step's name in the configuration.
    pub fn name(self) -> (res: &'static str)
        ensures
            res@ == self.name_spec(),
    {
        match self {
            StepKind::Changelog => "changelog",
            StepKind::Exec => "exec",
            StepKind::Github => "github",
            StepKind::Npm => "npm",
        }
    }

    /// Whether the step does work after the commit and tags are pushed.
    pub fn has_release_phase(self) -> (res: bool)
        ensures
            res == (self == StepKind::Github),
    {
        match self {
            StepKind::Github => true,
            _ => false,
        }
    }
}

/// The step a configured name refers to; `None` for an unknown name.
pub fn create_step(name: &str) -> (res: Option<StepKind>)
    ensures
        match res {
            Some(k) => k.name_spec() == name@,
            None => name@ != "changelog"@ && name@ != "exec"@ && name@ != "github"@ && name@ != "npm"@,
        },
{
    if str_eq(name, "changelog") {
        Some(StepKind::Changelog)
    } else if str_eq(name, "exec") {
        Some(StepKind::Exec)
    } else if str_eq(name, "github") {
        Some(StepKind::Github)
    } else if str_eq(name, "npm") {
        Some(StepKind::Npm)
    } else {
        None
    }
}

/// A step's custom body template: the contents of `template_file`, once
/// read, win over the inline `template`; none when neither is set.
pub fn resolve_template(template: Option<&str>, file_contents: Option<String>) -> (res: Option<String>)
    ensures
        opt_view(res) == match opt_view(file_contents) {
            Some(c) => Some(c),
            None => match template {
                Some(t) => Some(t@),
                None => None,
            },
        },
{
    match file_contents {
        Some(c) => Some(c),
        None => match template {
            Some(t) => Some(crate::text::owned_string(t)),
            None => None,
        },
    }
}

} // verus!
