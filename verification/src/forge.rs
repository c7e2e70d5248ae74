//! Git hosts: repository references, pull-request context and release links.
//!
//! Talking to a host is I/O and lives with the caller; reading a remote URL,
//! choosing the API endpoint and building links are decided here.
use vstd::prelude::*;

use crate::matcher::opt_view;
use crate::text::{
    chars_of, decimal, eq_ignore_ascii_case, eq_ignore_case, first_match, parse_u64, parse_u64_spec, rfind,
    rfind_char, slice, split_char, split_chars, split_once, split_once_chars, string_from,
    take_until, take_until_char, trim, trim_chars,
};

verus! {

/// A repository slug plus the host it lives on.
#[derive(Debug, PartialEq, Eq)]
pub struct RepoRef {
    pub owner: String,
    pub repo: String,
    pub host: String,
}

/// `https://<host>/<owner>/<repo>`.
pub open spec fn web_url_spec(host: Seq<char>, owner: Seq<char>, repo: Seq<char>) -> Seq<char> {
    "https://"@ + host + seq!['/'] + owner + seq!['/'] + repo
}

impl RepoRef {
    /// The repository's web URL, e.g. `https://github.com/owner/repo`.
    pub fn web_url(&self) -> (res: String)
        ensures
            res@ == web_url_spec(self.host@, self.owner@, self.repo@),
    {
        let mut v = chars_of("https://");
        crate::text::append_str(&mut v, self.host.as_str());
        v.push('/');
        crate::text::append_str(&mut v, self.owner.as_str());
        v.push('/');
        crate::text::append_str(&mut v, self.repo.as_str());
        assert(v@ =~= web_url_spec(self.host@, self.owner@, self.repo@));
        string_from(&v)
    }
}

/// A pull/merge-request context from CI; the id is a string to stay
/// host-neutral.
#[derive(Debug, PartialEq, Eq)]
pub struct PrContext {
    pub id: String,
    pub base_ref: Option<String>,
}

/// The outcome of an upsert.
#[derive(Debug, Clone, Copy, PartialEq, Eq, Structural)]
pub enum UpsertAction {
    Created,
    Updated,
    Skipped,
}

impl UpsertAction {
    pub open spec fn verb_spec(self) -> Seq<char> {
        match self {
            UpsertAction::Created => "Created"@,
            UpsertAction::Updated => "Updated"@,
            UpsertAction::Skipped => "Skipped"@,
        }
    }

    pub fn verb(self) -> (res: &'static str)
        ensures
            res@ == self.verb_spec(),
    {
        match self {
            UpsertAction::Created => "Created",
            UpsertAction::Updated => "Updated",
            UpsertAction::Skipped => "Skipped",
        }
    }
}

/// A release to create or update, with its assets.
#[derive(Debug)]
pub struct ReleasePlan {
    pub tag: String,
    pub name: String,
    pub body: String,
    pub draft: bool,
    pub prerelease: bool,
    /// Paths of the files to attach.
    pub assets: Vec<String>,
}

/// A "released" comment (and labels) to post on a resolved issue or PR.
#[derive(Debug)]
pub struct IssueComment {
    pub id: String,
    /// Rendered comment body (the host adds the marker).
    pub body: String,
    pub labels: Vec<String>,
}

/// The GitHub host (also GitHub Enterprise on any host).
#[derive(Debug, Clone, Copy, PartialEq, Eq, Structural)]
pub struct GitHubForge;

// ---------------------------------------------------------------------------
// Remote URLs
// ---------------------------------------------------------------------------

pub open spec fn strip_last(s: Seq<char>, c: char) -> Seq<char> {
    if s.len() > 0 && s.last() == c {
        s.drop_last()
    } else {
        s
    }
}

pub open spec fn strip_suffix(s: Seq<char>, suffix: Seq<char>) -> Seq<char> {
    if suffix.is_suffix_of(s) {
        s.take(s.len() - suffix.len())
    } else {
        s
    }
}

/// What follows the last `c`, or all of `s`.
pub open spec fn after_last(s: Seq<char>, c: char) -> Seq<char> {
    match rfind_char(s, c) {
        Some(i) => s.skip(i + 1),
        None => s,
    }
}

/// The non-empty pieces, in order.
pub open spec fn nonempty_parts(parts: Seq<Seq<char>>) -> Seq<Seq<char>>
    decreases parts.len(),
{
    if parts.len() == 0 {
        Seq::empty()
    } else if parts.last().len() > 0 {
        nonempty_parts(parts.drop_last()).push(parts.last())
    } else {
        nonempty_parts(parts.drop_last())
    }
}

/// `(owner, repo, host)` of a remote URL already trimmed and without its
/// trailing slash.
pub open spec fn repo_parts_spec(u: Seq<char>) -> Option<(Seq<char>, Seq<char>, Seq<char>)> {
    let split = match split_once(u, "://"@) {
        Some((_, after)) => split_once(after, seq!['/']),
        None => split_once(u, seq![':']),
    };
    match split {
        None => None,
        Some((host_part, path)) => {
            let host = take_until(after_last(host_part, '@'), ':');
            let segs = nonempty_parts(split_char(strip_suffix(path, ".git"@), '/'));
            if segs.len() < 2 || host.len() == 0 {
                None
            } else {
                Some((segs[0], segs[1], host))
            }
        },
    }
}

/// `(owner, repo, host)` of a remote URL: `git@host:owner/repo(.git)`,
/// `ssh://git@host[:port]/owner/repo(.git)` or `https://host/owner/repo(.git)`,
/// with an optional trailing slash.
pub open spec fn repo_url_spec(url: Seq<char>) -> Option<(Seq<char>, Seq<char>, Seq<char>)> {
    repo_parts_spec(strip_last(trim(url), '/'))
}

fn strip_last_exec(s: Vec<char>, c: char) -> (res: Vec<char>)
    ensures
        res@ == strip_last(s@, c),
{
    if s.len() > 0 && s[s.len() - 1] == c {
        slice(&s, 0, s.len() - 1)
    } else {
        s
    }
}

/// `(owner, repo, host)` of a remote URL.
pub fn parse_repo_parts(url: &str) -> (res: Option<(String, String, String)>)
    ensures
        match res {
            Some((o, r, h)) => repo_url_spec(url@) == Some((o@, r@, h@)),
            None => repo_url_spec(url@) is None,
        },
{
    proof {
        reveal_strlit("://");
        reveal_strlit(".git");
    }
    let raw = chars_of(url);
    let t = trim_chars(&raw);
    let u = strip_last_exec(t, '/');
    let sep = chars_of("://");
    let split = match split_once_chars(&u, &sep) {
        Some((_, after)) => {
            let mut slash: Vec<char> = Vec::new();
            slash.push('/');
            assert(slash@ =~= seq!['/']);
            split_once_chars(&after, &slash)
        },
        None => {
            let mut colon: Vec<char> = Vec::new();
            colon.push(':');
            assert(colon@ =~= seq![':']);
            split_once_chars(&u, &colon)
        },
    };
    let (host_part, path) = match split {
        Some(p) => p,
        None => {
            return None;
        },
    };
    proof {
        crate::text::lemma_rfind_char(host_part@, '@');
    }
    let after_at = match rfind(&host_part, '@') {
        Some(i) => slice(&host_part, i + 1, host_part.len()),
        None => host_part,
    };
    assert(after_at@ =~= after_last(host_part@, '@'));
    let host = take_until_char(&after_at, ':');
    let git = chars_of(".git");
    let stripped = if crate::text::ends_with(&path, &git) {
        slice(&path, 0, path.len() - git.len())
    } else {
        path
    };
    assert(stripped@ =~= strip_suffix(path@, ".git"@));
    let parts = split_chars(&stripped, '/');
    let ghost pv = parts@.map_values(|p: Vec<char>| p@);
    let mut segs: Vec<Vec<char>> = Vec::new();
    let mut i: usize = 0;
    while i < parts.len()
        invariant
            i <= parts@.len(),
            pv == parts@.map_values(|p: Vec<char>| p@),
            segs@.map_values(|p: Vec<char>| p@) == nonempty_parts(pv.take(i as int)),
        decreases parts@.len() - i,
    {
        assert(pv.take((i + 1) as int).drop_last() =~= pv.take(i as int));
        assert(pv.take((i + 1) as int).last() == parts@[i as int]@);
        if parts[i].len() > 0 {
            let ghost s0 = segs@;
            segs.push(parts[i].clone());
            assert(segs@.map_values(|p: Vec<char>| p@) =~= s0.map_values(|p: Vec<char>| p@).push(
                parts@[i as int]@,
            ));
        }
        i = i + 1;
    }
    assert(pv.take(parts@.len() as int) =~= pv);
    if segs.len() < 2 || host.len() == 0 {
        return None;
    }
    let ghost sv = segs@.map_values(|p: Vec<char>| p@);
    assert(sv[0] == segs@[0]@ && sv[1] == segs@[1]@);
    Some((string_from(&segs[0]), string_from(&segs[1]), string_from(&host)))
}

/// Parses an owner/repo (and host) out of a git remote URL.
pub fn parse_repo_url(url: &str) -> (res: Option<RepoRef>)
    ensures
        match res {
            Some(r) => repo_url_spec(url@) == Some((r.owner@, r.repo@, r.host@)),
            None => repo_url_spec(url@) is None,
        },
{
    match parse_repo_parts(url) {
        Some((owner, repo, host)) => Some(RepoRef { owner, repo, host }),
        None => None,
    }
}

/// Splitting `s + t` at the first `pat` splits `s` there, when no character of
/// `t` occurs in `pat`: the split point lies in `s`, and `t` stays at the end.
proof fn lemma_split_once_append(s: Seq<char>, t: Seq<char>, pat: Seq<char>)
    requires
        pat.len() > 0,
        forall|k: int, m: int| 0 <= k < t.len() && 0 <= m < pat.len() ==> t[k] != pat[m],
    ensures
        split_once(s + t, pat) == (match split_once(s, pat) {
            Some((a, b)) => Some((a, b + t)),
            None => None::<(Seq<char>, Seq<char>)>,
        }),
        split_once(s, pat) matches Some((a, b)) ==> b.len() <= s.len() && b == s.skip(s.len() - b.len()),
{
    lemma_first_match_append(s, t, pat);
    crate::text::lemma_first_match_bounds(s, pat);
    if let Some(i) = first_match(s, pat) {
        assert((s + t).take(i) =~= s.take(i));
        assert((s + t).skip(i + pat.len()) =~= s.skip(i + pat.len()) + t);
        let b = s.skip(i + pat.len());
        assert(b =~= s.skip(s.len() - b.len()));
    }
}

proof fn lemma_first_match_append(s: Seq<char>, t: Seq<char>, pat: Seq<char>)
    requires
        pat.len() > 0,
        forall|k: int, m: int| 0 <= k < t.len() && 0 <= m < pat.len() ==> t[k] != pat[m],
    ensures
        first_match(s + t, pat) == first_match(s, pat),
    decreases s.len() + t.len(),
{
    let st = s + t;
    if pat.is_prefix_of(s) {
        assert(st.subrange(0, pat.len() as int) =~= s.subrange(0, pat.len() as int));
        assert(pat.is_prefix_of(st));
    } else {
        if pat.is_prefix_of(st) {
            if pat.len() <= s.len() {
                assert(st.subrange(0, pat.len() as int) =~= s.subrange(0, pat.len() as int));
            } else {
                assert(st[s.len() as int] == pat[s.len() as int]);
                assert(st[s.len() as int] == t[0]);
            }
        }
        if s.len() == 0 {
            if t.len() > 0 {
                assert(st.drop_first() =~= s + t.drop_first());
                lemma_first_match_append(s, t.drop_first(), pat);
            }
        } else {
            assert(st.drop_first() =~= s.drop_first() + t);
            lemma_first_match_append(s.drop_first(), t, pat);
        }
    }
}

/// Under a `.git` suffix the segments of a URL path stay those of the path.
proof fn lemma_parts_append_git(u: Seq<char>)
    requires
        !(".git"@.is_suffix_of(u)),
    ensures
        repo_parts_spec(u + ".git"@) == repo_parts_spec(u),
{
    reveal_strlit(".git");
    reveal_strlit("://");
    let g = ".git"@;
    let ug = u + g;
    assert forall|k: int, m: int| 0 <= k < g.len() && 0 <= m < "://"@.len() implies #[trigger] g[k] != #[trigger] "://"@[m] by {}
    assert forall|k: int, m: int| 0 <= k < g.len() && 0 <= m < seq!['/'].len() implies #[trigger] g[k] != #[trigger] seq!['/'][m] by {}
    assert forall|k: int, m: int| 0 <= k < g.len() && 0 <= m < seq![':'].len() implies #[trigger] g[k] != #[trigger] seq![':'][m] by {}
    lemma_split_once_append(u, g, "://"@);
    lemma_split_once_append(u, g, seq![':']);
    let split = match split_once(u, "://"@) {
        Some((_, after)) => split_once(after, seq!['/']),
        None => split_once(u, seq![':']),
    };
    let split_g = match split_once(ug, "://"@) {
        Some((_, after)) => split_once(after, seq!['/']),
        None => split_once(ug, seq![':']),
    };
    match split_once(u, "://"@) {
        Some((_, after)) => {
            lemma_split_once_append(after, g, seq!['/']);
            if let Some((hp, path)) = split {
                assert(path =~= u.skip(u.len() - path.len()));
            }
        },
        None => {},
    }
    if let Some((hp, path)) = split {
        assert(split_g == Some((hp, path + g)));
        assert(path.len() <= u.len() && path =~= u.skip(u.len() - path.len()));
        assert(g.is_suffix_of(path + g)) by {
            assert((path + g).subrange((path + g).len() - g.len(), (path + g).len() as int) =~= g);
        }
        assert(strip_suffix(path + g, g) =~= path);
        if g.is_suffix_of(path) {
            assert(u.subrange(u.len() - g.len(), u.len() as int) =~= path.subrange(
                path.len() - g.len(),
                path.len() as int,
            ));
        }
        assert(strip_suffix(path, g) == path);
    } else {
        assert(split_g is None);
    }
}

/// The trailing `.git` and the trailing slash of a remote URL are optional:
/// a trimmed URL without either reads the same with `/`, `.git` or `.git/`
/// appended.
pub proof fn law_repo_url_optional_suffixes(u: Seq<char>)
    requires
        trim(u) == u,
        !(u.len() > 0 && u.last() == '/'),
        !(".git"@.is_suffix_of(u)),
    ensures
        repo_url_spec(u + "/"@) == repo_url_spec(u),
        repo_url_spec(u + ".git"@) == repo_url_spec(u),
        repo_url_spec(u + ".git/"@) == repo_url_spec(u),
{
    reveal_strlit("/");
    reveal_strlit(".git");
    reveal_strlit(".git/");
    crate::text::lemma_trim_append(u, "/"@);
    crate::text::lemma_trim_append(u, ".git"@);
    crate::text::lemma_trim_append(u, ".git/"@);
    assert((u + "/"@).drop_last() =~= u);
    assert((u + ".git/"@).drop_last() =~= u + ".git"@);
    assert(strip_last(u + ".git"@, '/') == u + ".git"@);
    lemma_parts_append_git(u);
}

// ---------------------------------------------------------------------------
// GitHub specifics
// ---------------------------------------------------------------------------

/// What `percent_encoding::utf8_percent_encode` makes of a tag with the set of
/// path-breaking characters (controls, space, `"`, `#`, `%`, `/`, `<`, `>`,
/// `?`, `` ` ``, `{`, `}`).
pub uninterp spec fn encode_tag_of(tag: Seq<char>) -> Seq<char>;

/// Percent-encodes a tag as one URL path segment, as GitHub encodes it. The
/// contract claims only that the result is the one `encode_tag_of` names.
#[verifier::external_body]
fn encode_tag(tag: &str) -> (res: String)
    ensures
        res@ == encode_tag_of(tag@),
{
    let set: &'static percent_encoding::AsciiSet = Box::leak(Box::new(percent_encoding::CONTROLS
        .add(b' ').add(b'"').add(b'#').add(b'%').add(b'/').add(b'<').add(b'>')
        .add(b'?').add(b'`').add(b'{').add(b'}')));
    percent_encoding::utf8_percent_encode(tag, set).to_string()
}

/// `<web url>/releases/tag/<encoded tag>`.
pub open spec fn release_url_spec(repo: RepoRef, encoded: Seq<char>) -> Seq<char> {
    web_url_spec(repo.host@, repo.owner@, repo.repo@) + "/releases/tag/"@ + encoded
}

/// The release page of an already encoded tag.
pub fn release_url_with(repo: &RepoRef, encoded: &str) -> (res: String)
    ensures
        res@ == release_url_spec(*repo, encoded@),
{
    let w = repo.web_url();
    let mut v = chars_of(w.as_str());
    crate::text::append_str(&mut v, "/releases/tag/");
    crate::text::append_str(&mut v, encoded);
    string_from(&v)
}

/// The release page of a tag; the tag is one path segment, so a `/` in it
/// is percent-encoded.
pub fn release_url(repo: &RepoRef, tag: &str) -> (res: String)
    ensures
        res@ == release_url_spec(*repo, encode_tag_of(tag@)),
{
    let e = encode_tag(tag);
    release_url_with(repo, e.as_str())
}

/// GitHub identifies issues and pull requests by number.
pub fn numeric_id(id: &str) -> (res: Option<u64>)
    ensures
        res == parse_u64_spec(id@),
{
    let c = chars_of(id);
    parse_u64(&c)
}

pub open spec fn github_dot_com(host: Seq<char>) -> bool {
    host.len() == 0 || eq_ignore_ascii_case(host, "github.com"@)
}

/// An empty host or `github.com` (in any case).
pub fn is_github_dot_com(host: &str) -> (res: bool)
    ensures
        res == github_dot_com(host@),
{
    let h = chars_of(host);
    if h.len() == 0 {
        return true;
    }
    let g = chars_of("github.com");
    eq_ignore_case(&h, &g)
}

/// `s` without trailing `c`s.
pub open spec fn trim_end_char(s: Seq<char>, c: char) -> Seq<char>
    decreases s.len(),
{
    if s.len() > 0 && s.last() == c {
        trim_end_char(s.drop_last(), c)
    } else {
        s
    }
}

/// The API endpoint for a repository: an explicit `GITHUB_API_URL` (trimmed,
/// without trailing slashes) unless it is empty or the public API; otherwise
/// none for github.com and `https://<host>/api/v3` for GitHub Enterprise.
pub open spec fn api_base_spec(env_url: Option<Seq<char>>, host: Seq<char>) -> Option<Seq<char>> {
    let explicit = match env_url {
        Some(u) => {
            let t = trim_end_char(trim(u), '/');
            if t.len() > 0 && t != "https://api.github.com"@ {
                Some(t)
            } else {
                None
            }
        },
        None => None,
    };
    match explicit {
        Some(t) => Some(t),
        None => if github_dot_com(host) {
            None
        } else {
            Some("https://"@ + host + "/api/v3"@)
        },
    }
}

fn trim_end_char_exec(s: &Vec<char>, c: char) -> (res: Vec<char>)
    ensures
        res@ == trim_end_char(s@, c),
{
    let mut end = s.len();
    assert(s@.take(end as int) =~= s@);
    while end > 0 && s[end - 1] == c
        invariant
            end <= s.len(),
            trim_end_char(s@, c) == trim_end_char(s@.take(end as int), c),
        decreases end,
    {
        assert(s@.take(end as int).drop_last() =~= s@.take(end - 1));
        end = end - 1;
    }
    slice(s, 0, end)
}

/// The API endpoint for `repo`, given the value of `GITHUB_API_URL`.
pub fn api_base_uri_for(env_url: Option<&str>, repo: &RepoRef) -> (res: Option<String>)
    ensures
        opt_view(res) == api_base_spec(
            match env_url {
                Some(u) => Some(u@),
                None => None,
            },
            repo.host@,
        ),
{
    proof {
        reveal_strlit("https://api.github.com");
    }
    match env_url {
        Some(u) => {
            let c = chars_of(u);
            let t = trim_chars(&c);
            let e = trim_end_char_exec(&t, '/');
            let public = chars_of("https://api.github.com");
            if e.len() > 0 && !crate::text::chars_eq(&e, &public) {
                return Some(string_from(&e));
            }
        },
        None => {},
    }
    if is_github_dot_com(repo.host.as_str()) {
        None
    } else {
        let mut v = chars_of("https://");
        crate::text::append_str(&mut v, repo.host.as_str());
        crate::text::append_str(&mut v, "/api/v3");
        Some(string_from(&v))
    }
}

/// The pull request of a CI event: the `pull_request` number (with its base
/// ref) when present, else a top-level `number`.
pub fn pr_context_from_fields(pr_number: Option<u64>, pr_base_ref: Option<String>, top_number: Option<u64>) -> (res: Option<PrContext>)
    ensures
        match pr_number {
            Some(n) => res matches Some(c) && c.id@ == decimal(n as nat) && opt_view(c.base_ref) == opt_view(pr_base_ref),
            None => match top_number {
                Some(n) => res matches Some(c) && c.id@ == decimal(n as nat) && c.base_ref is None,
                None => res is None,
            },
        },
{
    match pr_number {
        Some(n) => Some(PrContext { id: crate::text::u64_to_string(n), base_ref: pr_base_ref }),
        None => match top_number {
            Some(n) => Some(PrContext { id: crate::text::u64_to_string(n), base_ref: None }),
            None => None,
        },
    }
}

/// The pull request number of a `refs/pull/<n>/...` ref.
pub open spec fn pr_ref_spec(gh_ref: Seq<char>) -> Option<Seq<char>> {
    if "refs/pull/"@.is_prefix_of(gh_ref) {
        match split_once(gh_ref.skip(10), seq!['/']) {
            Some((num, _)) => if parse_u64_spec(num) is Some {
                Some(num)
            } else {
                None
            },
            None => None,
        }
    } else {
        None
    }
}

/// The pull request of a `GITHUB_REF` like `refs/pull/12/merge`, with the
/// base ref when it is not empty.
pub fn pr_context_from_ref(gh_ref: &str, base_ref: Option<String>) -> (res: Option<PrContext>)
    ensures
        match pr_ref_spec(gh_ref@) {
            Some(num) => res matches Some(c) && c.id@ == num && opt_view(c.base_ref) == (match opt_view(base_ref) {
                Some(b) => if b.len() > 0 {
                    Some(b)
                } else {
                    None
                },
                None => None,
            }),
            None => res is None,
        },
{
    proof {
        reveal_strlit("refs/pull/");
    }
    let r = chars_of(gh_ref);
    let prefix = chars_of("refs/pull/");
    if !crate::text::starts_with(&r, &prefix) {
        return None;
    }
    let rest = slice(&r, 10, r.len());
    assert(rest@ =~= gh_ref@.skip(10));
    let mut slash: Vec<char> = Vec::new();
    slash.push('/');
    assert(slash@ =~= seq!['/']);
    match split_once_chars(&rest, &slash) {
        Some((num, _)) => {
            if parse_u64(&num).is_none() {
                return None;
            }
            let base = match base_ref {
                Some(b) => if b.as_str().unicode_len() > 0 {
                    Some(b)
                } else {
                    None
                },
                None => None,
            };
            Some(PrContext { id: string_from(&num), base_ref: base })
        },
        None => None,
    }
}

} // verus!
