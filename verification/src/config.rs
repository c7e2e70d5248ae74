//! Configuration: release branches, tag templates and package filters.
use vstd::prelude::*;

pub mod branch;
pub mod schema;

use crate::config::branch::BranchConfig;
use crate::text::{
    chars_of, contains, contains_seq, first_match, is_ascii_digit, replace, replace_all, split_once,
    split_once_chars, string_from, views,
};
use crate::version::{version_text, Version};

verus! {

/// Whether `glob_match::glob_match(pattern, value)` holds.
pub uninterp spec fn glob_match_of(pattern: Seq<char>, value: Seq<char>) -> bool;

/// Matches a string against a glob pattern (`*`, `?`, `[...]`, `{a,b}`)
/// with the `glob-match` crate. The contract claims only that the result is
/// the one `glob_match_of` names.
#[verifier::external_body]
pub fn glob_match(pattern: &str, value: &str) -> (res: bool)
    ensures
        res == glob_match_of(pattern@, value@),
{
    glob_match::glob_match(pattern, value)
}

/// A step of the release: its name, and the package and branch glob
/// filters that scope it (empty = all).
#[derive(Debug)]
pub struct StepConfig {
    pub name: String,
    pub packages: Vec<String>,
    pub branches: Vec<String>,
}

/// What the release does in git after the steps.
#[derive(Debug)]
pub struct GitConfig {
    /// Commit message template (`{releases}`, `{summary}`, `{count}`).
    pub commit_message: String,
    /// Push the commit and tags to the remote.
    pub push: bool,
    pub remote: String,
    /// Push the commit and the tags all or nothing (`git push --atomic`).
    pub atomic: bool,
}

/// The release configuration.
#[derive(Debug)]
pub struct Config {
    pub branches: Vec<BranchConfig>,
    /// Tag template of the root package (`{version}`, `{name}`).
    pub tag_format: String,
    /// Tag template of the other packages.
    pub tag_format_package: String,
    /// Packages to include (globs); all when absent.
    pub packages: Option<Vec<String>>,
    /// Packages to exclude (globs).
    pub exclude: Vec<String>,
    /// Files whose change affects every package (globs).
    pub dependencies: Vec<String>,
    /// Files that never trigger a release (globs).
    pub ignore: Vec<String>,
    pub steps: Vec<StepConfig>,
    pub git: GitConfig,
}

fn owned(s: &str) -> (res: String)
    ensures
        res@ == s@,
{
    let c = chars_of(s);
    string_from(&c)
}

/// The default branches: `main` and `master`.
pub fn default_branches() -> (res: Vec<BranchConfig>)
    ensures
        res@.len() == 2,
        res@[0].name_spec() == "main"@,
        res@[1].name_spec() == "master"@,
        res@[0] is Name && res@[1] is Name,
{
    let mut v: Vec<BranchConfig> = Vec::new();
    v.push(BranchConfig::Name(owned("main")));
    v.push(BranchConfig::Name(owned("master")));
    v
}

pub fn default_tag_format() -> (res: String)
    ensures
        res@ == "v{version}"@,
{
    owned("v{version}")
}

pub fn default_tag_format_package() -> (res: String)
    ensures
        res@ == "{name}/v{version}"@,
{
    owned("{name}/v{version}")
}

/// The default steps: `changelog`, then `npm`, unscoped.
pub fn default_steps() -> (res: Vec<StepConfig>)
    ensures
        res@.len() == 2,
        res@[0].name@ == "changelog"@,
        res@[1].name@ == "npm"@,
        forall|i: int| 0 <= i < 2 ==> res@[i].packages@.len() == 0 && res@[i].branches@.len() == 0,
{
    let mut v: Vec<StepConfig> = Vec::new();
    v.push(StepConfig { name: owned("changelog"), packages: Vec::new(), branches: Vec::new() });
    v.push(StepConfig { name: owned("npm"), packages: Vec::new(), branches: Vec::new() });
    v
}

pub fn default_message() -> (res: String)
    ensures
        res@ == "chore(release): {releases} [skip ci]"@,
{
    owned("chore(release): {releases} [skip ci]")
}

pub fn default_remote() -> (res: String)
    ensures
        res@ == "origin"@,
{
    owned("origin")
}

impl Default for GitConfig {
    fn default() -> (res: Self)
        ensures
            res.commit_message@ == "chore(release): {releases} [skip ci]"@,
            !res.push,
            res.remote@ == "origin"@,
            res.atomic,
    {
        GitConfig { commit_message: default_message(), push: false, remote: default_remote(), atomic: true }
    }
}

impl Default for Config {
    fn default() -> (res: Self)
        ensures
            res.branches@.len() == 2,
            res.branches@[0].name_spec() == "main"@,
            res.branches@[1].name_spec() == "master"@,
            res.tag_format@ == "v{version}"@,
            res.tag_format_package@ == "{name}/v{version}"@,
            res.packages is None,
            res.exclude@.len() == 0,
            res.dependencies@.len() == 0,
            res.ignore@.len() == 0,
            res.steps@.len() == 2,
            res.steps@[0].name@ == "changelog"@,
            res.steps@[1].name@ == "npm"@,
            res.git.remote@ == "origin"@,
            !res.git.push,
    {
        Config {
            branches: default_branches(),
            tag_format: default_tag_format(),
            tag_format_package: default_tag_format_package(),
            packages: None,
            exclude: Vec::new(),
            dependencies: Vec::new(),
            ignore: Vec::new(),
            steps: default_steps(),
            git: GitConfig::default(),
        }
    }
}

/// `template` with `{name}` and then `{version}` substituted.
pub open spec fn render_spec(template: Seq<char>, name: Seq<char>, version: Seq<char>) -> Seq<char> {
    replace_all(replace_all(template, "{name}"@, name), "{version}"@, version)
}

/// Substitutes `{name}` and then `{version}` in a tag template.
pub fn render_tag_template(template: &str, name: &str, version: &str) -> (res: String)
    ensures
        res@ == render_spec(template@, name@, version@),
{
    proof {
        reveal_strlit("{name}");
        reveal_strlit("{version}");
    }
    let t = chars_of(template);
    let n = chars_of(name);
    let v = chars_of(version);
    let pn = chars_of("{name}");
    let pv = chars_of("{version}");
    let a = replace(&t, &pn, &n);
    let b = replace(&a, &pv, &v);
    string_from(&b)
}

/// The version text a tag carries under `template`: the tag must read as the
/// template (with `{name}` substituted) where the one `{version}` stands for a
/// text that starts with an ASCII digit, has at least two characters and no
/// line break. A template without `{version}`, or with it twice, matches no tag.
pub open spec fn tag_version_spec(template: Seq<char>, name: Seq<char>, tag: Seq<char>) -> Option<Seq<char>> {
    if !contains_seq(template, "{version}"@) {
        None
    } else {
        match split_once(replace_all(template, "{name}"@, name), "{version}"@) {
            Some((p, s)) => if contains_seq(s, "{version}"@) {
                None
            } else if p.is_prefix_of(tag) && tag.len() >= p.len() + s.len() + 2 && s.is_suffix_of(
                tag,
            ) {
                let v = tag.subrange(p.len() as int, tag.len() - s.len());
                if is_ascii_digit(v[0]) && !v.contains('\n') {
                    Some(v)
                } else {
                    None
                }
            } else {
                None
            },
            None => None,
        }
    }
}

impl Config {
    pub open spec fn template_spec(self, is_root: bool) -> Seq<char> {
        if is_root {
            self.tag_format@
        } else {
            self.tag_format_package@
        }
    }

    fn tag_template(&self, is_root: bool) -> (res: &str)
        ensures
            res@ == self.template_spec(is_root),
    {
        if is_root {
            self.tag_format.as_str()
        } else {
            self.tag_format_package.as_str()
        }
    }

    /// The tag of a package release.
    pub fn format_tag(&self, package_name: &str, version: &Version, is_root: bool) -> (res: String)
        ensures
            res@ == render_spec(
                self.template_spec(is_root),
                package_name@,
                version_text(version.parts()),
            ),
    {
        let v = version.to_string();
        render_tag_template(self.tag_template(is_root), package_name, v.as_str())
    }

    /// The version text a tag carries for a package, if it is one of its tags.
    pub fn tag_version(&self, package_name: &str, is_root: bool, tag: &str) -> (res: Option<String>)
        ensures
            crate::matcher::opt_view(res) == tag_version_spec(
                self.template_spec(is_root),
                package_name@,
                tag@,
            ),
    {
        tag_version(self.tag_template(is_root), package_name, tag)
    }
}

/// The version text `tag` carries under `template` for package `name`.
pub fn tag_version(template: &str, name: &str, tag: &str) -> (res: Option<String>)
    ensures
        crate::matcher::opt_view(res) == tag_version_spec(template@, name@, tag@),
{
    proof {
        reveal_strlit("{name}");
        reveal_strlit("{version}");
    }
    let t = chars_of(template);
    let pv = chars_of("{version}");
    if !contains(&t, &pv) {
        return None;
    }
    let n = chars_of(name);
    let pn = chars_of("{name}");
    let substituted = replace(&t, &pn, &n);
    let (p, s) = match split_once_chars(&substituted, &pv) {
        Some(parts) => parts,
        None => {
            return None;
        },
    };
    if contains(&s, &pv) {
        return None;
    }
    let g = chars_of(tag);
    if !crate::text::starts_with(&g, &p) {
        return None;
    }
    if g.len() < p.len() || g.len() - p.len() < s.len() || g.len() - p.len() - s.len() < 2 {
        return None;
    }
    if !crate::text::ends_with(&g, &s) {
        return None;
    }
    let v = crate::text::slice(&g, p.len(), g.len() - s.len());
    if !crate::text::char_is_ascii_digit(v[0]) {
        return None;
    }
    if crate::text::contains_char(&v, '\n') {
        return None;
    }
    Some(string_from(&v))
}

/// After `{name}` is substituted, the template holds `{version}` exactly once.
pub open spec fn single_version_slot(template: Seq<char>, name: Seq<char>) -> bool {
    &&& contains_seq(template, "{version}"@)
    &&& match split_once(replace_all(template, "{name}"@, name), "{version}"@) {
        Some((_, s)) => !contains_seq(s, "{version}"@),
        None => false,
    }
}

/// The tag written for a version is read back as that version: rendering a
/// template with one `{version}` slot and reading the tag with the same
/// template gives the version text again, when that text starts with a digit,
/// has at least two characters and no line break (as every version does).
pub proof fn law_tag_reads_back(template: Seq<char>, name: Seq<char>, version: Seq<char>)
    requires
        single_version_slot(template, name),
        version.len() >= 2,
        is_ascii_digit(version[0]),
        !version.contains('\n'),
    ensures
        tag_version_spec(template, name, render_spec(template, name, version)) == Some(version),
{
    reveal_strlit("{version}");
    let pat = "{version}"@;
    let t = replace_all(template, "{name}"@, name);
    let i = first_match(t, pat).unwrap();
    let p = t.take(i);
    let s = t.skip(i + pat.len());
    crate::text::lemma_replace_first(t, pat, version, i);
    crate::text::lemma_replace_absent(s, pat, version);
    let tag = render_spec(template, name, version);
    assert(tag =~= p + version + s);
    assert(p.is_prefix_of(tag)) by {
        assert(tag.take(p.len() as int) =~= p);
    }
    assert(s.is_suffix_of(tag)) by {
        assert(tag.skip(tag.len() - s.len()) =~= s);
    }
    assert(tag.subrange(p.len() as int, tag.len() - s.len()) =~= version);
}

} // verus!

