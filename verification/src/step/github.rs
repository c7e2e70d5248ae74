//! The GitHub step: release names, success comments and the step's options.
use vstd::prelude::*;

pub mod comments;

use crate::commit::{dedup, issue_candidates, referenced_issues, ConventionalCommit};
use crate::config::{render_spec, Config};
use crate::forge::IssueComment;
use crate::matcher::opt_view;
use crate::text::{chars_of, join, replace, replace_all, str_eq, string_from, views};
use crate::version::{version_text, PackageRelease};

verus! {

/// Marker used to find (and avoid duplicating) the "released" comments.
pub const RELEASED_MARKER: &'static str = "<!-- super-release:released -->";

/// Options of the GitHub step.
#[derive(Debug)]
pub struct GithubOptions {
    /// Create the release as a draft.
    pub draft: bool,
    /// Force the prerelease flag; by default, whether the branch is a
    /// prerelease branch.
    pub prerelease: Option<bool>,
    /// Glob patterns (relative to the repository root) of files to attach.
    pub assets: Vec<String>,
    /// Release name template (`{name}`, `{version}`, `{tag}`); the tag by
    /// default.
    pub release_name_template: Option<String>,
    /// GitHub Enterprise API base URL.
    pub github_url: Option<String>,
    /// Comment on the pull requests and issues a release resolves.
    pub comment_on_success: bool,
    /// Success comment template (`{releases}`, `{tag}`).
    pub success_comment: Option<String>,
    /// Labels added to resolved pull requests and issues.
    pub released_labels: Vec<String>,
}

pub fn default_true() -> (res: bool)
    ensures
        res,
{
    true
}

pub fn default_released_labels() -> (res: Vec<String>)
    ensures
        crate::text::views(res@) == seq!["released"@],
{
    let mut v: Vec<String> = Vec::new();
    v.push(crate::text::owned_string("released"));
    assert(crate::text::views(v@) =~= seq!["released"@]);
    v
}

impl Default for GithubOptions {
    fn default() -> (res: Self)
        ensures
            !res.draft,
            res.prerelease is None,
            res.assets@.len() == 0,
            res.release_name_template is None,
            res.github_url is None,
            res.comment_on_success,
            res.success_comment is None,
            crate::text::views(res.released_labels@) == seq!["released"@],
    {
        GithubOptions {
            draft: false,
            prerelease: None,
            assets: Vec::new(),
            release_name_template: None,
            github_url: None,
            comment_on_success: default_true(),
            success_comment: None,
            released_labels: default_released_labels(),
        }
    }
}

/// The GitHub step.
#[derive(Debug, Clone, Copy, PartialEq, Eq, Structural)]
pub struct GithubStep;

impl GithubStep {
    pub fn name(&self) -> (res: &'static str)
        ensures
            res@ == "github"@,
    {
        "github"
    }
}

/// The release name: the tag by default, else the template with `{name}`,
/// `{version}` and `{tag}` substituted in that order.
pub open spec fn release_name_spec(template: Option<Seq<char>>, name: Seq<char>, version: Seq<char>, tag: Seq<char>) -> Seq<char> {
    match template {
        None => tag,
        Some(t) => replace_all(replace_all(replace_all(t, "{name}"@, name), "{version}"@, version), "{tag}"@, tag),
    }
}

/// The name of a release on GitHub.
pub fn render_release_name(template: Option<&str>, name: &str, version: &str, tag: &str) -> (res: String)
    ensures
        res@ == release_name_spec(
            match template {
                Some(t) => Some(t@),
                None => None,
            },
            name@,
            version@,
            tag@,
        ),
{
    proof {
        reveal_strlit("{name}");
        reveal_strlit("{version}");
        reveal_strlit("{tag}");
    }
    match template {
        None => crate::text::owned_string(tag),
        Some(t) => {
            let a = crate::text::replace_str(t, "{name}", name);
            let b = replace(&a, &chars_of("{version}"), &chars_of(version));
            let c = replace(&b, &chars_of("{tag}"), &chars_of(tag));
            string_from(&c)
        },
    }
}

/// `` `t` ``.
pub open spec fn backticked(t: Seq<char>) -> Seq<char> {
    seq!['`'] + t + seq!['`']
}

/// The items joined with `", "`.
pub open spec fn join_spec(items: Seq<Seq<char>>) -> Seq<char> {
    join(items, seq![',', ' '])
}

/// The success comment for the given release mentions: the template with
/// `{releases}` and then `{tag}` substituted, or the default sentence.
pub open spec fn success_spec(template: Option<Seq<char>>, items: Seq<Seq<char>>, first_tag: Seq<char>) -> Seq<char> {
    match template {
        Some(t) => replace_all(replace_all(t, "{releases}"@, join_spec(items)), "{tag}"@, first_tag),
        None => "🎉 This is included in the following release(s): "@ + join_spec(items),
    }
}

/// The items joined with `", "`.
pub fn join_items(items: &Vec<Vec<char>>) -> (res: Vec<char>)
    ensures
        res@ == join_spec(items@.map_values(|v: Vec<char>| v@)),
{
    let ghost iv = items@.map_values(|v: Vec<char>| v@);
    let mut out: Vec<char> = Vec::new();
    let mut i: usize = 0;
    while i < items.len()
        invariant
            i <= items@.len(),
            iv == items@.map_values(|v: Vec<char>| v@),
            out@ == join(iv.take(i as int), seq![',', ' ']),
        decreases items@.len() - i,
    {
        let ghost t = iv.take((i + 1) as int);
        assert(t.drop_last() =~= iv.take(i as int));
        assert(t.last() == items@[i as int]@);
        if i > 0 {
            out.push(',');
            out.push(' ');
        }
        let ghost o0 = out@;
        crate::text::append_chars(&mut out, &items[i]);
        if i == 0 {
            assert(t =~= seq![items@[0]@]);
        }
        i = i + 1;
    }
    assert(iv.take(items@.len() as int) =~= iv);
    out
}

/// Renders a success comment from already rendered mentions.
pub fn render_success(template: Option<&str>, items: &Vec<Vec<char>>, first_tag: &str) -> (res: String)
    ensures
        res@ == success_spec(
            match template {
                Some(t) => Some(t@),
                None => None,
            },
            items@.map_values(|v: Vec<char>| v@),
            first_tag@,
        ),
{
    proof {
        reveal_strlit("{releases}");
        reveal_strlit("{tag}");
    }
    let joined = join_items(items);
    match template {
        Some(t) => {
            let a = replace(&chars_of(t), &chars_of("{releases}"), &joined);
            let b = replace(&a, &chars_of("{tag}"), &chars_of(first_tag));
            string_from(&b)
        },
        None => {
            let mut v = chars_of("🎉 This is included in the following release(s): ");
            crate::text::append_chars(&mut v, &joined);
            string_from(&v)
        },
    }
}

/// The success comment listing release tags in backticks.
pub fn render_success_comment(template: Option<&str>, tags: &Vec<String>) -> (res: String)
    ensures
        res@ == success_spec(
            match template {
                Some(t) => Some(t@),
                None => None,
            },
            crate::text::views(tags@).map_values(|t: Seq<char>| backticked(t)),
            if tags@.len() > 0 {
                tags@[0]@
            } else {
                Seq::empty()
            },
        ),
{
    let ghost ms = crate::text::views(tags@).map_values(|t: Seq<char>| backticked(t));
    let mut items: Vec<Vec<char>> = Vec::new();
    let mut i: usize = 0;
    while i < tags.len()
        invariant
            i <= tags@.len(),
            ms == crate::text::views(tags@).map_values(|t: Seq<char>| backticked(t)),
            items@.map_values(|v: Vec<char>| v@) == ms.take(i as int),
        decreases tags@.len() - i,
    {
        let mut v: Vec<char> = Vec::new();
        v.push('`');
        crate::text::append_str(&mut v, tags[i].as_str());
        v.push('`');
        assert(v@ =~= backticked(tags@[i as int]@));
        let ghost i0 = items@;
        items.push(v);
        assert(items@.map_values(|v: Vec<char>| v@) =~= i0.map_values(|v: Vec<char>| v@).push(backticked(tags@[i as int]@)));
        assert(ms[i as int] == backticked(tags@[i as int]@));
        assert(ms.take((i + 1) as int) =~= ms.take(i as int).push(ms[i as int]));
        assert(items@.map_values(|v: Vec<char>| v@) =~= ms.take((i + 1) as int));
        i = i + 1;
    }
    assert(ms.take(tags@.len() as int) =~= ms);
    let first: &str = if tags.len() > 0 {
        tags[0].as_str()
    } else {
        proof {
            reveal_strlit("");
        }
        assert(""@ =~= Seq::<char>::empty());
        ""
    };
    assert(first@ == (if tags@.len() > 0 {
        tags@[0]@
    } else {
        Seq::<char>::empty()
    }));
    render_success(template, &items, first)
}

// ---------------------------------------------------------------------------
// Success comments
// ---------------------------------------------------------------------------

/// The order of strings (`Ord for String`): lexicographic by character.
pub open spec fn lex_lt(a: Seq<char>, b: Seq<char>) -> bool
    decreases a.len(),
{
    if a.len() == 0 {
        b.len() > 0
    } else if b.len() == 0 {
        false
    } else if a[0] != b[0] {
        a[0] < b[0]
    } else {
        lex_lt(a.drop_first(), b.drop_first())
    }
}

/// An issue or pull request and the tags of the releases that resolve it.
pub type Entry = (Seq<char>, Seq<Seq<char>>);

/// Where `id` is, or would go, among entries kept in order of their ids.
pub open spec fn slot(entries: Seq<Entry>, id: Seq<char>) -> (bool, int)
    decreases entries.len(),
{
    if entries.len() == 0 {
        (false, 0)
    } else if entries[0].0 == id {
        (true, 0)
    } else if lex_lt(id, entries[0].0) {
        (false, 0)
    } else {
        let (f, p) = slot(entries.drop_first(), id);
        (f, p + 1)
    }
}

/// Records that the release tagged `tag` resolves `id`: once per tag, in the
/// order the tags come; a new id is inserted in order.
pub open spec fn record(entries: Seq<Entry>, id: Seq<char>, tag: Seq<char>) -> Seq<Entry> {
    let (found, p) = slot(entries, id);
    if found {
        if entries[p].1.contains(tag) {
            entries
        } else {
            entries.update(p, (id, entries[p].1.push(tag)))
        }
    } else {
        entries.insert(p, (id, seq![tag]))
    }
}

pub open spec fn record_ids(entries: Seq<Entry>, ids: Seq<Seq<char>>, tag: Seq<char>) -> Seq<Entry>
    decreases ids.len(),
{
    if ids.len() == 0 {
        entries
    } else {
        record(record_ids(entries, ids.drop_last(), tag), ids.last(), tag)
    }
}

pub open spec fn record_commits(entries: Seq<Entry>, commits: Seq<ConventionalCommit>, tag: Seq<char>) -> Seq<Entry>
    decreases commits.len(),
{
    if commits.len() == 0 {
        entries
    } else {
        record_ids(
            record_commits(entries, commits.drop_last(), tag),
            dedup(issue_candidates(commits.last().raw_message@)),
            tag,
        )
    }
}

pub open spec fn release_tag(cfg: Config, r: PackageRelease) -> Seq<char> {
    render_spec(cfg.template_spec(r.is_root), r.package_name@, version_text(r.next_version.parts()))
}

/// The issues and pull requests the releases resolve, in order of their ids,
/// each with the tags of the releases that include it.
pub open spec fn resolved_entries(cfg: Config, releases: Seq<PackageRelease>) -> Seq<Entry>
    decreases releases.len(),
{
    if releases.len() == 0 {
        Seq::empty()
    } else {
        record_commits(
            resolved_entries(cfg, releases.drop_last()),
            releases.last().commits@,
            release_tag(cfg, releases.last()),
        )
    }
}

pub open spec fn entry_view(e: (String, Vec<String>)) -> Entry {
    (e.0@, views(e.1@))
}

pub open spec fn entries_view(v: Seq<(String, Vec<String>)>) -> Seq<Entry> {
    v.map_values(|e: (String, Vec<String>)| entry_view(e))
}

/// `a` comes before `b` in string order.
pub fn str_lt(a: &str, b: &str) -> (res: bool)
    ensures
        res == lex_lt(a@, b@),
{
    let x = chars_of(a);
    let y = chars_of(b);
    let mut i: usize = 0;
    assert(x@.skip(0) =~= x@);
    assert(y@.skip(0) =~= y@);
    while i < x.len() && i < y.len() && x[i] == y[i]
        invariant
            i <= x@.len(),
            i <= y@.len(),
            lex_lt(a@, b@) == lex_lt(x@.skip(i as int), y@.skip(i as int)),
        decreases x@.len() - i,
    {
        assert(x@.skip(i as int).drop_first() =~= x@.skip(i + 1));
        assert(y@.skip(i as int).drop_first() =~= y@.skip(i + 1));
        i = i + 1;
    }
    proof {
        assert(x@.skip(i as int).len() == x@.len() - i);
        if i < x@.len() {
            assert(x@.skip(i as int)[0] == x@[i as int]);
        }
        if i < y@.len() {
            assert(y@.skip(i as int)[0] == y@[i as int]);
        }
    }
    if i == x.len() {
        i < y.len()
    } else if i == y.len() {
        false
    } else {
        x[i] < y[i]
    }
}

fn record_exec(entries: &mut Vec<(String, Vec<String>)>, id: &String, tag: &String)
    ensures
        entries_view(final(entries)@) == record(entries_view(old(entries)@), id@, tag@),
{
    let ghost ev = entries_view(entries@);
    let mut k: usize = 0;
    assert(ev.skip(0) =~= ev);
    while k < entries.len()
        invariant
            k <= entries@.len(),
            ev == entries_view(entries@),
            ev == entries_view(old(entries)@),
            slot(ev, id@) == ({
                let (f, p) = slot(ev.skip(k as int), id@);
                (f, p + k)
            }),
        decreases entries@.len() - k,
    {
        assert(ev.skip(k as int)[0] == entry_view(entries@[k as int]));
        if str_eq(entries[k].0.as_str(), id.as_str()) {
            assert(slot(ev.skip(k as int), id@) == (true, 0int));
            let mut tags = entries[k].1.clone();
            let ghost tv = views(entries@[k as int].1@);
            assert(views(tags@) == tv);
            let present = crate::version::contains_string(&tags, tag.as_str());
            if !present {
                tags.push(tag.clone());
                assert(views(tags@) =~= tv.push(tag@));
                let old_entry = entries.remove(k);
                entries.insert(k, (old_entry.0, tags));
                assert(entries_view(entries@) =~= ev.update(k as int, (id@, tv.push(tag@))));
            }
            return;
        }
        if str_lt(id.as_str(), entries[k].0.as_str()) {
            assert(slot(ev.skip(k as int), id@) == (false, 0int));
            let ghost e0 = entries@;
            let mut one: Vec<String> = Vec::new();
            one.push(tag.clone());
            assert(views(one@) =~= seq![tag@]);
            entries.insert(k, (id.clone(), one));
            assert(entries_view(entries@) =~= ev.insert(k as int, (id@, seq![tag@])));
            return;
        }
        assert(ev.skip(k as int).drop_first() =~= ev.skip(k + 1));
        k = k + 1;
    }
    assert(ev.skip(k as int) =~= Seq::<Entry>::empty());
    let mut one: Vec<String> = Vec::new();
    one.push(tag.clone());
    assert(views(one@) =~= seq![tag@]);
    entries.push((id.clone(), one));
    assert(entries_view(entries@) =~= ev.insert(k as int, (id@, seq![tag@])));
}

/// The issues and pull requests the releases resolve, in order of their ids,
/// each with the tags of the releases that include it.
pub fn collect_resolved(cfg: &Config, releases: &[PackageRelease]) -> (res: Vec<(String, Vec<String>)>)
    ensures
        entries_view(res@) == resolved_entries(*cfg, releases@),
{
    let mut entries: Vec<(String, Vec<String>)> = Vec::new();
    assert(entries_view(entries@) =~= Seq::<Entry>::empty());
    let mut r: usize = 0;
    while r < releases.len()
        invariant
            r <= releases@.len(),
            entries_view(entries@) == resolved_entries(*cfg, releases@.take(r as int)),
        decreases releases@.len() - r,
    {
        let rel = &releases[r];
        assert(releases@.take((r + 1) as int).drop_last() =~= releases@.take(r as int));
        assert(releases@.take((r + 1) as int).last() == *rel);
        let tag = cfg.format_tag(rel.package_name.as_str(), &rel.next_version, rel.is_root);
        let ghost base = entries_view(entries@);
        let mut c: usize = 0;
        while c < rel.commits.len()
            invariant
                c <= rel.commits@.len(),
                tag@ == release_tag(*cfg, *rel),
                entries_view(entries@) == record_commits(base, rel.commits@.take(c as int), tag@),
            decreases rel.commits@.len() - c,
        {
            assert(rel.commits@.take((c + 1) as int).drop_last() =~= rel.commits@.take(c as int));
            assert(rel.commits@.take((c + 1) as int).last() == rel.commits@[c as int]);
            let ids = referenced_issues(rel.commits[c].raw_message.as_str());
            let ghost before = entries_view(entries@);
            let mut k: usize = 0;
            while k < ids.len()
                invariant
                    k <= ids@.len(),
                    entries_view(entries@) == record_ids(before, views(ids@).take(k as int), tag@),
                decreases ids@.len() - k,
            {
                assert(views(ids@).take((k + 1) as int).drop_last() =~= views(ids@).take(k as int));
                assert(views(ids@).take((k + 1) as int).last() == ids@[k as int]@);
                record_exec(&mut entries, &ids[k], &tag);
                k = k + 1;
            }
            assert(views(ids@).take(ids@.len() as int) =~= views(ids@));
            c = c + 1;
        }
        assert(rel.commits@.take(rel.commits@.len() as int) =~= rel.commits@);
        r = r + 1;
    }
    assert(releases@.take(releases@.len() as int) =~= releases@);
    entries
}

/// One comment per issue or pull request the releases resolve (in order of
/// their ids), mentioning every tag that includes it, with the configured
/// labels.
pub fn build_success_comments(cfg: &Config, opts: &GithubOptions, releases: &[PackageRelease]) -> (res: Vec<IssueComment>)
    ensures
        res@.len() == resolved_entries(*cfg, releases@).len(),
        forall|j: int| 0 <= j < res@.len() ==> {
            let e = resolved_entries(*cfg, releases@)[j];
            &&& (#[trigger] res@[j]).id@ == e.0
            &&& res@[j].body@ == success_spec(
                opt_view(opts.success_comment),
                e.1.map_values(|t: Seq<char>| backticked(t)),
                if e.1.len() > 0 {
                    e.1[0]
                } else {
                    Seq::empty()
                },
            )
            &&& views(res@[j].labels@) == views(opts.released_labels@)
        },
{
    let entries = collect_resolved(cfg, releases);
    let ghost ev = entries_view(entries@);
    let template: Option<&str> = match &opts.success_comment {
        Some(t) => Some(t.as_str()),
        None => None,
    };
    let mut out: Vec<IssueComment> = Vec::new();
    let mut j: usize = 0;
    while j < entries.len()
        invariant
            j <= entries@.len(),
            ev == entries_view(entries@),
            ev == resolved_entries(*cfg, releases@),
            template matches Some(t) ==> opt_view(opts.success_comment) == Some(t@),
            template is None ==> opts.success_comment is None,
            out@.len() == j,
            forall|q: int| 0 <= q < j ==> {
                let e = ev[q];
                &&& (#[trigger] out@[q]).id@ == e.0
                &&& out@[q].body@ == success_spec(
                    opt_view(opts.success_comment),
                    e.1.map_values(|t: Seq<char>| backticked(t)),
                    if e.1.len() > 0 {
                        e.1[0]
                    } else {
                        Seq::empty()
                    },
                )
                &&& views(out@[q].labels@) == views(opts.released_labels@)
            },
        decreases entries@.len() - j,
    {
        let body = render_success_comment(template, &entries[j].1);
        let labels = crate::commit::clone_strings(&opts.released_labels);
        assert(ev[j as int] == entry_view(entries@[j as int]));
        out.push(IssueComment { id: entries[j].0.clone(), body, labels });
        j = j + 1;
    }
    out
}

// ---------------------------------------------------------------------------
// Order of the success comments
// ---------------------------------------------------------------------------

proof fn lemma_lex_lt_irreflexive(a: Seq<char>)
    ensures
        !lex_lt(a, a),
    decreases a.len(),
{
    if a.len() > 0 {
        lemma_lex_lt_irreflexive(a.drop_first());
    }
}

proof fn lemma_lex_lt_transitive(a: Seq<char>, b: Seq<char>, c: Seq<char>)
    requires
        lex_lt(a, b),
        lex_lt(b, c),
    ensures
        lex_lt(a, c),
    decreases a.len(),
{
    if a.len() > 0 && b.len() > 0 && c.len() > 0 && a[0] == b[0] && b[0] == c[0] {
        lemma_lex_lt_transitive(a.drop_first(), b.drop_first(), c.drop_first());
    }
}

proof fn lemma_lex_lt_total(a: Seq<char>, b: Seq<char>)
    requires
        a != b,
    ensures
        lex_lt(a, b) || lex_lt(b, a),
    decreases a.len(),
{
    if a.len() > 0 && b.len() > 0 && a[0] == b[0] {
        if a.drop_first() == b.drop_first() {
            assert(a =~= seq![a[0]] + a.drop_first());
            assert(b =~= seq![b[0]] + b.drop_first());
        }
        lemma_lex_lt_total(a.drop_first(), b.drop_first());
    } else if a.len() == 0 && b.len() == 0 {
        assert(a =~= b);
    } else if a.len() > 0 && b.len() > 0 {
    }
}

/// The ids come in strictly increasing string order.
pub open spec fn sorted_ids(entries: Seq<Entry>) -> bool {
    forall|i: int, j: int| 0 <= i < j < entries.len() ==> #[trigger] lex_lt(entries[i].0, entries[j].0)
}

proof fn lemma_slot(entries: Seq<Entry>, id: Seq<char>)
    requires
        sorted_ids(entries),
    ensures
        0 <= slot(entries, id).1 <= entries.len(),
        forall|i: int| 0 <= i < slot(entries, id).1 ==> lex_lt((#[trigger] entries[i]).0, id),
        slot(entries, id).0 ==> slot(entries, id).1 < entries.len() && entries[slot(entries, id).1].0 == id,
        !slot(entries, id).0 ==> forall|i: int|
            slot(entries, id).1 <= i < entries.len() ==> lex_lt(id, (#[trigger] entries[i]).0),
    decreases entries.len(),
{
    if entries.len() == 0 {
    } else if entries[0].0 == id {
    } else if lex_lt(id, entries[0].0) {
        assert forall|i: int| 0 <= i < entries.len() implies lex_lt(id, (#[trigger] entries[i]).0) by {
            if i > 0 {
                lemma_lex_lt_transitive(id, entries[0].0, entries[i].0);
            }
        }
    } else {
        let rest = entries.drop_first();
        assert(sorted_ids(rest)) by {
            assert forall|i: int, j: int| 0 <= i < j < rest.len() implies #[trigger] lex_lt(rest[i].0, rest[j].0) by {
                assert(rest[i] == entries[i + 1] && rest[j] == entries[j + 1]);
            }
        }
        lemma_slot(rest, id);
        lemma_lex_lt_total(id, entries[0].0);
        let p = slot(rest, id).1;
        assert forall|i: int| 0 <= i < p + 1 implies lex_lt((#[trigger] entries[i]).0, id) by {
            if i > 0 {
                assert(entries[i] == rest[i - 1]);
            }
        }
        if !slot(rest, id).0 {
            assert forall|i: int| p + 1 <= i < entries.len() implies lex_lt(id, (#[trigger] entries[i]).0) by {
                assert(entries[i] == rest[i - 1]);
            }
        } else {
            assert(entries[p + 1] == rest[p]);
        }
    }
}

proof fn lemma_record_sorted(entries: Seq<Entry>, id: Seq<char>, tag: Seq<char>)
    requires
        sorted_ids(entries),
    ensures
        sorted_ids(record(entries, id, tag)),
{
    lemma_slot(entries, id);
    let (found, p) = slot(entries, id);
    let out = record(entries, id, tag);
    if found {
        assert forall|i: int, j: int| 0 <= i < j < out.len() implies #[trigger] lex_lt(out[i].0, out[j].0) by {
            assert(out[i].0 == entries[i].0 && out[j].0 == entries[j].0);
        }
    } else {
        assert forall|i: int, j: int| 0 <= i < j < out.len() implies #[trigger] lex_lt(out[i].0, out[j].0) by {
            if j < p {
                assert(out[i] == entries[i] && out[j] == entries[j]);
            } else if j == p {
                assert(out[i] == entries[i]);
            } else if i < p {
                assert(out[i] == entries[i] && out[j] == entries[j - 1]);
                lemma_lex_lt_transitive(entries[i].0, id, entries[j - 1].0);
            } else if i == p {
                assert(out[j] == entries[j - 1]);
            } else {
                assert(out[i] == entries[i - 1] && out[j] == entries[j - 1]);
            }
        }
    }
}

proof fn lemma_record_ids_sorted(entries: Seq<Entry>, ids: Seq<Seq<char>>, tag: Seq<char>)
    requires
        sorted_ids(entries),
    ensures
        sorted_ids(record_ids(entries, ids, tag)),
    decreases ids.len(),
{
    if ids.len() > 0 {
        lemma_record_ids_sorted(entries, ids.drop_last(), tag);
        lemma_record_sorted(record_ids(entries, ids.drop_last(), tag), ids.last(), tag);
    }
}

proof fn lemma_record_commits_sorted(entries: Seq<Entry>, commits: Seq<ConventionalCommit>, tag: Seq<char>)
    requires
        sorted_ids(entries),
    ensures
        sorted_ids(record_commits(entries, commits, tag)),
    decreases commits.len(),
{
    if commits.len() > 0 {
        lemma_record_commits_sorted(entries, commits.drop_last(), tag);
        lemma_record_ids_sorted(
            record_commits(entries, commits.drop_last(), tag),
            dedup(issue_candidates(commits.last().raw_message@)),
            tag,
        );
    }
}

/// One success comment per resolved issue or pull request, in increasing
/// order of their ids: the ids of the entries the comments are built from
/// are strictly increasing, so none is commented on twice.
pub proof fn law_success_comments_ordered(cfg: Config, releases: Seq<PackageRelease>)
    ensures
        sorted_ids(resolved_entries(cfg, releases)),
    decreases releases.len(),
{
    if releases.len() > 0 {
        law_success_comments_ordered(cfg, releases.drop_last());
        lemma_record_commits_sorted(
            resolved_entries(cfg, releases.drop_last()),
            releases.last().commits@,
            release_tag(cfg, releases.last()),
        );
    }
}

} // verus!

