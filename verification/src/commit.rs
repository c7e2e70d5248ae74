//! Conventional-commit parsing, issue references and revert filtering.
use vstd::prelude::*;

use crate::matcher::{
    get_group, group, opt_view, opt_views, regex_captures, regex_captures_of, regex_group_matches,
    regex_group_matches_of,
};
use crate::text::{
    append_str, chars_of, contains, contains_seq, first_line, first_line_chars, split_once,
    split_once_chars, str_eq, string_from, trim, trim_chars, trim_str, views,
};

verus! {

/// `<type>(<scope>)!: <description>` on the subject line.
pub const CONVENTIONAL_COMMIT_PATTERN: &'static str = r"^(?P<type>[a-zA-Z]+)(?:\((?P<scope>[^)]+)\))?(?P<bang>!)?:\s*(?P<desc>.+)";

/// semantic-release's revert pattern: `Revert "<subject>"` or
/// `revert: <subject>`, followed by a `This reverts commit <hash>` footer.
pub const REVERT_PATTERN: &'static str = r#"(?i)^(?:Revert|revert:)\s"?([\s\S]+?)"?\s*This reverts commit (\w{7,40})\b"#;

/// The `(#123)` pull-request suffix GitHub appends to a squash/merge subject.
pub const PR_SUFFIX_PATTERN: &'static str = r"\(#(\d+)\)\s*$";

/// A classic `Merge pull request #123 from ...` merge-commit subject.
pub const MERGE_PR_PATTERN: &'static str = r"(?i)^Merge pull request #(\d+)";

/// GitHub issue-closing keywords, e.g. `fixes #12`, `Closes #34`.
pub const CLOSING_PATTERN: &'static str = r"(?i)\b(?:close[sd]?|fix(?:es|ed)?|resolve[sd]?)\s+#(\d+)";

// ---------------------------------------------------------------------------
// Issue references
// ---------------------------------------------------------------------------

/// Group 1 of the first match of `pattern` in `text`.
pub open spec fn first_group(pattern: Seq<char>, text: Seq<char>) -> Option<Seq<char>> {
    match regex_captures_of(pattern, text) {
        Some(caps) => group(caps, 1),
        None => None,
    }
}

pub open spec fn opt_seq(o: Option<Seq<char>>) -> Seq<Seq<char>> {
    match o {
        Some(s) => seq![s],
        None => Seq::empty(),
    }
}

/// The present values of a sequence of options, in order.
pub open spec fn somes(s: Seq<Option<Seq<char>>>) -> Seq<Seq<char>>
    decreases s.len(),
{
    if s.len() == 0 {
        Seq::empty()
    } else {
        opt_seq(s[0]) + somes(s.drop_first())
    }
}

/// Issue numbers a message names, in the order they are found, duplicates
/// included: the subject's `(#N)` suffix, a merge subject's number, then every
/// closing-keyword reference in the whole message.
pub open spec fn issue_candidates(message: Seq<char>) -> Seq<Seq<char>> {
    let subject = first_line(message);
    opt_seq(first_group(PR_SUFFIX_PATTERN@, subject)) + opt_seq(first_group(MERGE_PR_PATTERN@, subject))
        + somes(regex_group_matches_of(CLOSING_PATTERN@, message, 1))
}

/// One step of keeping the first occurrence of each item.
pub open spec fn dedup_step(acc: Seq<Seq<char>>, x: Seq<char>) -> Seq<Seq<char>> {
    if acc.contains(x) {
        acc
    } else {
        acc.push(x)
    }
}

/// `acc` extended with `items`, skipping items already present.
pub open spec fn dedup_from(acc: Seq<Seq<char>>, items: Seq<Seq<char>>) -> Seq<Seq<char>>
    decreases items.len(),
{
    if items.len() == 0 {
        acc
    } else {
        dedup_from(dedup_step(acc, items[0]), items.drop_first())
    }
}

/// The first occurrence of each item, in order.
pub open spec fn dedup(items: Seq<Seq<char>>) -> Seq<Seq<char>> {
    dedup_from(Seq::empty(), items)
}

/// Pushes `n` unless an equal string is already present.
fn push_unique(out: &mut Vec<String>, n: String)
    ensures
        views(final(out)@) == dedup_step(views(old(out)@), n@),
{
    let mut i: usize = 0;
    while i < out.len()
        invariant
            i <= out.len(),
            forall|j: int| 0 <= j < i ==> out@[j]@ != n@,
        decreases out.len() - i,
    {
        if out[i] == n {
            assert(views(out@)[i as int] == n@);
            return;
        }
        i = i + 1;
    }
    proof {
        assert(!views(out@).contains(n@)) by {
            if views(out@).contains(n@) {
                let k = choose|k: int| 0 <= k < views(out@).len() && views(out@)[k] == n@;
                assert(out@[k]@ == n@);
            }
        }
    }
    let ghost before = out@;
    out.push(n);
    assert(views(out@) =~= views(before).push(n@));
}

/// Deduplicated PR/issue references a commit resolves; plain `#123` mentions
/// without a closing keyword are ignored.
pub fn referenced_issues(message: &str) -> (res: Vec<String>)
    ensures
        views(res@) == dedup(issue_candidates(message@)),
{
    let mut out: Vec<String> = Vec::new();
    let msg = chars_of(message);
    let subject_chars = first_line_chars(&msg);
    let subject = string_from(&subject_chars);
    let ghost all = issue_candidates(message@);
    let mut pending: Vec<Option<String>> = Vec::new();
    match regex_captures(PR_SUFFIX_PATTERN, subject.as_str()) {
        Some(caps) => pending.push(get_group(&caps, 1)),
        None => pending.push(None),
    }
    match regex_captures(MERGE_PR_PATTERN, subject.as_str()) {
        Some(caps) => pending.push(get_group(&caps, 1)),
        None => pending.push(None),
    }
    let closing = regex_group_matches(CLOSING_PATTERN, message, 1);
    let mut k: usize = 0;
    while k < closing.len()
        invariant
            k <= closing.len(),
            pending@.len() == 2 + k,
            opt_views(pending@) =~= seq![first_group(PR_SUFFIX_PATTERN@, subject_chars@),
                first_group(MERGE_PR_PATTERN@, subject_chars@)] + opt_views(closing@).take(k as int),
        decreases closing.len() - k,
    {
        let item = match &closing[k] {
            Some(s) => Some(s.clone()),
            None => None,
        };
        let ghost before = pending@;
        pending.push(item);
        assert(opt_views(pending@) =~= opt_views(before).push(opt_view(closing@[k as int])));
        k = k + 1;
        assert(opt_views(closing@).take(k as int) =~= opt_views(closing@).take((k - 1) as int).push(
            opt_view(closing@[k - 1]),
        ));
    }
    proof {
        assert(opt_views(closing@).take(k as int) =~= opt_views(closing@));
        lemma_somes_cons(opt_views(pending@));
        lemma_somes_cons(opt_views(pending@).drop_first());
        assert(opt_views(pending@).drop_first().drop_first() =~= opt_views(closing@));
        assert(somes(opt_views(pending@)) =~= all);
        assert(views(out@) =~= Seq::<Seq<char>>::empty());
        assert(opt_views(pending@).skip(0) =~= opt_views(pending@));
    }
    let mut i: usize = 0;
    while i < pending.len()
        invariant
            i <= pending.len(),
            dedup_from(views(out@), somes(opt_views(pending@).skip(i as int))) == dedup(all),
        decreases pending.len() - i,
    {
        proof {
            lemma_somes_cons(opt_views(pending@).skip(i as int));
            assert(opt_views(pending@).skip(i as int).drop_first() =~= opt_views(pending@).skip(
                i + 1,
            ));
        }
        match &pending[i] {
            Some(n) => {
                let ghost before = views(out@);
                push_unique(&mut out, n.clone());
                assert(somes(opt_views(pending@).skip(i as int)) =~= seq![n@] + somes(
                    opt_views(pending@).skip(i + 1),
                ));
                assert((seq![n@] + somes(opt_views(pending@).skip(i + 1))).drop_first() =~= somes(
                    opt_views(pending@).skip(i + 1),
                ));
            },
            None => {
                assert(somes(opt_views(pending@).skip(i as int)) =~= somes(
                    opt_views(pending@).skip(i + 1),
                ));
            },
        }
        i = i + 1;
    }
    proof {
        assert(opt_views(pending@).skip(i as int) =~= Seq::<Option<Seq<char>>>::empty());
    }
    out
}

proof fn lemma_somes_cons(s: Seq<Option<Seq<char>>>)
    requires
        s.len() > 0,
    ensures
        somes(s) == opt_seq(s[0]) + somes(s.drop_first()),
{
}

// ---------------------------------------------------------------------------
// Bump levels
// ---------------------------------------------------------------------------

/// The type of version bump a commit implies, ordered `NoBump < Patch < Minor < Major`.
#[derive(Debug, Clone, Copy, PartialEq, Eq, Structural, PartialOrd, Ord)]
pub enum BumpLevel {
    NoBump,
    Patch,
    Minor,
    Major,
}

impl BumpLevel {
    /// Position of the level in the order `NoBump < Patch < Minor < Major`.
    pub open spec fn rank_of(self) -> nat {
        match self {
            BumpLevel::NoBump => 0,
            BumpLevel::Patch => 1,
            BumpLevel::Minor => 2,
            BumpLevel::Major => 3,
        }
    }

    /// Position of the level in the order `NoBump < Patch < Minor < Major`.
    pub fn rank(self) -> (r: u8)
        ensures
            r as nat == self.rank_of(),
    {
        match self {
            BumpLevel::NoBump => 0,
            BumpLevel::Patch => 1,
            BumpLevel::Minor => 2,
            BumpLevel::Major => 3,
        }
    }

    pub open spec fn name_of(self) -> Seq<char> {
        match self {
            BumpLevel::NoBump => "none"@,
            BumpLevel::Patch => "patch"@,
            BumpLevel::Minor => "minor"@,
            BumpLevel::Major => "major"@,
        }
    }

    /// The lowercase name of the level, as it is displayed.
    pub fn as_str(self) -> (s: &'static str)
        ensures
            s@ == self.name_of(),
    {
        match self {
            BumpLevel::NoBump => "none",
            BumpLevel::Patch => "patch",
            BumpLevel::Minor => "minor",
            BumpLevel::Major => "major",
        }
    }
}

// ---------------------------------------------------------------------------
// Commits
// ---------------------------------------------------------------------------

/// Info parsed from a revert commit's `This reverts commit <hash>` footer.
#[derive(Debug, PartialEq, Eq)]
pub struct RevertInfo {
    /// Subject line of the reverted commit, as quoted in the revert message.
    pub header: String,
    /// Hash of the reverted commit as written in the footer (7-40 chars).
    pub hash: String,
}

impl Clone for RevertInfo {
    fn clone(&self) -> (res: Self)
        ensures
            res == *self,
    {
        RevertInfo { header: self.header.clone(), hash: self.hash.clone() }
    }
}

/// The header and hash the revert pattern finds in a message.
pub open spec fn revert_spec(message: Seq<char>) -> Option<(Seq<char>, Seq<char>)> {
    match regex_captures_of(REVERT_PATTERN@, message) {
        Some(caps) => match (group(caps, 1), group(caps, 2)) {
            (Some(h), Some(x)) => Some((trim(h), x)),
            _ => None,
        },
        None => None,
    }
}

pub open spec fn revert_view(r: Option<RevertInfo>) -> Option<(Seq<char>, Seq<char>)> {
    match r {
        Some(info) => Some((info.header@, info.hash@)),
        None => None,
    }
}

/// Parses the revert footer of a message.
pub fn parse_revert(message: &str) -> (res: Option<RevertInfo>)
    ensures
        revert_view(res) == revert_spec(message@),
{
    let caps = regex_captures(REVERT_PATTERN, message)?;
    let h = get_group(&caps, 1);
    let x = get_group(&caps, 2);
    match (h, x) {
        (Some(h), Some(x)) => {
            let header = trim_str(h.as_str());
            Some(RevertInfo { header: string_from(&header), hash: x })
        },
        _ => None,
    }
}

/// A parsed conventional commit.
#[derive(Debug)]
pub struct ConventionalCommit {
    /// Short hash for display (8 chars).
    pub hash: String,
    /// Full commit id (hex), for exact comparisons.
    pub oid: Option<String>,
    pub commit_type: String,
    pub scope: Option<String>,
    pub description: String,
    pub body: Option<String>,
    pub breaking: bool,
    pub bump: BumpLevel,
    /// Present when the message matches the revert pattern.
    pub revert: Option<RevertInfo>,
    pub raw_message: String,
    /// Files changed by this commit (relative paths).
    pub files_changed: Vec<String>,
}

/// A copy of an optional string.
pub fn clone_opt_string(o: &Option<String>) -> (res: Option<String>)
    ensures
        res == *o,
{
    match o {
        Some(s) => Some(s.clone()),
        None => None,
    }
}

/// A copy of a vector of strings.
pub fn clone_strings(v: &Vec<String>) -> (res: Vec<String>)
    ensures
        res@ == v@,
{
    let mut res: Vec<String> = Vec::new();
    let mut i: usize = 0;
    while i < v.len()
        invariant
            i <= v.len(),
            res@ == v@.take(i as int),
        decreases v.len() - i,
    {
        res.push(v[i].clone());
        i = i + 1;
        assert(res@ =~= v@.take(i as int));
    }
    assert(v@.take(v.len() as int) =~= v@);
    res
}

/// A commit as plain values.
pub struct CommitView {
    pub hash: Seq<char>,
    pub oid: Option<Seq<char>>,
    pub commit_type: Seq<char>,
    pub scope: Option<Seq<char>>,
    pub description: Seq<char>,
    pub body: Option<Seq<char>>,
    pub breaking: bool,
    pub bump: BumpLevel,
    pub revert: Option<(Seq<char>, Seq<char>)>,
    pub raw_message: Seq<char>,
    pub files_changed: Seq<Seq<char>>,
}

impl View for ConventionalCommit {
    type V = CommitView;

    open spec fn view(&self) -> CommitView {
        CommitView {
            hash: self.hash@,
            oid: opt_view(self.oid),
            commit_type: self.commit_type@,
            scope: opt_view(self.scope),
            description: self.description@,
            body: opt_view(self.body),
            breaking: self.breaking,
            bump: self.bump,
            revert: revert_view(self.revert),
            raw_message: self.raw_message@,
            files_changed: views(self.files_changed@),
        }
    }
}

/// The views of a sequence of commits.
pub open spec fn cviews(s: Seq<ConventionalCommit>) -> Seq<CommitView> {
    s.map_values(|c: ConventionalCommit| c@)
}

impl Clone for ConventionalCommit {
    fn clone(&self) -> (res: Self)
        ensures
            res@ == self@,
    {
        let revert = match &self.revert {
            Some(r) => Some(r.clone()),
            None => None,
        };
        ConventionalCommit {
            hash: self.hash.clone(),
            oid: clone_opt_string(&self.oid),
            commit_type: self.commit_type.clone(),
            scope: clone_opt_string(&self.scope),
            description: self.description.clone(),
            body: clone_opt_string(&self.body),
            breaking: self.breaking,
            bump: self.bump,
            revert,
            raw_message: self.raw_message.clone(),
            files_changed: clone_strings(&self.files_changed),
        }
    }
}

/// What `str::to_lowercase` returns for `s`.
pub uninterp spec fn lowercase_of(s: Seq<char>) -> Seq<char>;

/// `str::to_lowercase`: the Unicode lowercase mapping of a string. The
/// contract claims only that the result is `lowercase_of(s)`.
#[verifier::external_body]
fn to_lowercase(s: &str) -> (res: String)
    ensures
        res@ == lowercase_of(s@),
{
    s.to_lowercase()
}

/// The header fields a message parses to: `(type, scope, description, bang)`.
///
/// A message whose subject is not conventional is still accepted as a
/// `revert` when it carries the revert footer.
pub open spec fn header_spec(message: Seq<char>) -> Option<(Seq<char>, Option<Seq<char>>, Seq<char>, bool)> {
    if message.len() == 0 {
        None
    } else {
        match regex_captures_of(CONVENTIONAL_COMMIT_PATTERN@, first_line(message)) {
            Some(caps) => match (group(caps, 1), group(caps, 4)) {
                (Some(t), Some(d)) => Some(
                    (lowercase_of(t), group(caps, 2), trim(d), group(caps, 3) is Some),
                ),
                _ => None,
            },
            None => match revert_spec(message) {
                Some((h, _)) => Some(("revert"@, None, h, false)),
                None => None,
            },
        }
    }
}

/// The body: the trimmed text after the first blank line, when non-empty.
pub open spec fn body_spec(message: Seq<char>) -> Option<Seq<char>> {
    match split_once(message, "\n\n"@) {
        Some((_, b)) => if trim(b).len() > 0 {
            Some(trim(b))
        } else {
            None
        },
        None => None,
    }
}

pub open spec fn breaking_spec(message: Seq<char>, bang: bool) -> bool {
    bang || contains_seq(message, "BREAKING CHANGE:"@) || contains_seq(message, "BREAKING-CHANGE:"@)
}

/// Breaking wins; a revert footer is a patch whatever the type; otherwise
/// `feat` is minor, `fix` and `perf` are patch and every other type is none.
pub open spec fn bump_spec(breaking: bool, has_revert: bool, commit_type: Seq<char>) -> BumpLevel {
    if breaking {
        BumpLevel::Major
    } else if has_revert {
        BumpLevel::Patch
    } else if commit_type == "feat"@ {
        BumpLevel::Minor
    } else if commit_type == "fix"@ || commit_type == "perf"@ {
        BumpLevel::Patch
    } else {
        BumpLevel::NoBump
    }
}

/// The commit a message parses to under the given short hash.
pub open spec fn parsed_view(hash: Seq<char>, message: Seq<char>) -> Option<CommitView> {
    match header_spec(message) {
        None => None,
        Some((t, scope, d, bang)) => {
            let breaking = breaking_spec(message, bang);
            Some(
                CommitView {
                    hash,
                    oid: None,
                    commit_type: t,
                    scope,
                    description: d,
                    body: body_spec(message),
                    breaking,
                    bump: bump_spec(breaking, revert_spec(message) is Some, t),
                    revert: revert_spec(message),
                    raw_message: message,
                    files_changed: Seq::empty(),
                },
            )
        },
    }
}

/// Parse `<type>(<scope>)!: <description>`; `oid` and `files_changed` are set
/// by the caller after parsing.
pub fn parse_conventional_commit(hash: &str, message: &str) -> (res: Option<ConventionalCommit>)
    ensures
        res is Some <==> header_spec(message@) is Some,
        res matches Some(c) ==> {
            let (t, scope, d, bang) = header_spec(message@).unwrap();
            let breaking = breaking_spec(message@, bang);
            &&& c.hash@ == hash@
            &&& c.oid is None
            &&& c.commit_type@ == t
            &&& opt_view(c.scope) == scope
            &&& c.description@ == d
            &&& opt_view(c.body) == body_spec(message@)
            &&& c.breaking == breaking
            &&& revert_view(c.revert) == revert_spec(message@)
            &&& c.bump == bump_spec(breaking, revert_spec(message@) is Some, t)
            &&& c.raw_message@ == message@
            &&& c.files_changed@.len() == 0
        },
        match res {
            Some(c) => parsed_view(hash@, message@) == Some(c@),
            None => parsed_view(hash@, message@) is None,
        },
{
    let msg = chars_of(message);
    if msg.len() == 0 {
        return None;
    }
    let line_chars = first_line_chars(&msg);
    let line = string_from(&line_chars);
    let revert = parse_revert(message);
    let (commit_type, scope, description, bang) = match regex_captures(
        CONVENTIONAL_COMMIT_PATTERN,
        line.as_str(),
    ) {
        Some(caps) => {
            let t = get_group(&caps, 1);
            let d = get_group(&caps, 4);
            let scope = get_group(&caps, 2);
            let bang = get_group(&caps, 3).is_some();
            match (t, d) {
                (Some(t), Some(d)) => {
                    let lower = to_lowercase(t.as_str());
                    let desc = trim_str(d.as_str());
                    (lower, scope, string_from(&desc), bang)
                },
                _ => {
                    return None;
                },
            }
        },
        None => match &revert {
            Some(info) => {
                let r = chars_of("revert");
                (string_from(&r), None, info.header.clone(), false)
            },
            None => {
                return None;
            },
        },
    };
    let sep = chars_of("\n\n");
    let body = match split_once_chars(&msg, &sep) {
        Some((_, b)) => {
            let t = trim_chars(&b);
            if t.len() > 0 {
                Some(string_from(&t))
            } else {
                None
            }
        },
        None => None,
    };
    let bc1 = chars_of("BREAKING CHANGE:");
    let bc2 = chars_of("BREAKING-CHANGE:");
    let breaking = bang || contains(&msg, &bc1) || contains(&msg, &bc2);
    let bump = if breaking {
        BumpLevel::Major
    } else if revert.is_some() {
        BumpLevel::Patch
    } else if str_eq(commit_type.as_str(), "feat") {
        BumpLevel::Minor
    } else if str_eq(commit_type.as_str(), "fix") || str_eq(commit_type.as_str(), "perf") {
        BumpLevel::Patch
    } else {
        BumpLevel::NoBump
    };
    let hash_chars = chars_of(hash);
    let raw_chars = chars_of(message);
    let files: Vec<String> = Vec::new();
    assert(views(files@) =~= Seq::<Seq<char>>::empty());
    Some(
        ConventionalCommit {
            hash: string_from(&hash_chars),
            oid: None,
            commit_type,
            scope,
            description,
            body,
            breaking,
            bump,
            revert,
            raw_message: string_from(&raw_chars),
            files_changed: files,
        },
    )
}

/// The message with a git-style `Revert "..."` subject rewritten to
/// `revert: <subject>`; conventional subjects and non-reverts are unchanged.
pub open spec fn normalized_spec(raw: Seq<char>, revert: Option<(Seq<char>, Seq<char>)>) -> Seq<char> {
    let conventional = raw.len() > 0 && regex_captures_of(
        CONVENTIONAL_COMMIT_PATTERN@,
        first_line(raw),
    ) is Some;
    match revert {
        Some((h, _)) => if conventional {
            raw
        } else {
            let subject = first_line(h);
            match split_once(raw, "\n"@) {
                Some((_, rest)) => "revert: "@ + subject + "\n"@ + rest,
                None => "revert: "@ + subject,
            }
        },
        None => raw,
    }
}

impl ConventionalCommit {
    /// The message with a git-style `Revert "..."` subject rewritten to
    /// `revert: <subject>`; `raw_message` itself stays untouched.
    pub fn normalized_message(&self) -> (res: String)
        ensures
            res@ == normalized_spec(self.raw_message@, revert_view(self.revert)),
    {
        let raw = chars_of(self.raw_message.as_str());
        let conventional = if raw.len() > 0 {
            let l = first_line_chars(&raw);
            let ls = string_from(&l);
            regex_captures(CONVENTIONAL_COMMIT_PATTERN, ls.as_str()).is_some()
        } else {
            false
        };
        match &self.revert {
            Some(info) if !conventional => {
                let h = chars_of(info.header.as_str());
                let subject = first_line_chars(&h);
                let mut out: Vec<char> = Vec::new();
                append_str(&mut out, "revert: ");
                crate::text::append_chars(&mut out, &subject);
                let nl = chars_of("\n");
                match split_once_chars(&raw, &nl) {
                    Some((_, rest)) => {
                        append_str(&mut out, "\n");
                        crate::text::append_chars(&mut out, &rest);
                    },
                    None => {},
                }
                string_from(&out)
            },
            _ => self.raw_message.clone(),
        }
    }
}

// ---------------------------------------------------------------------------
// Revert filtering
// ---------------------------------------------------------------------------

/// A revert recorded as `info` cancels commit `c`: its captured header is the
/// trimmed subject of `c` and its hash is the full id of `c`.
pub open spec fn revert_cancels(info: (Seq<char>, Seq<char>), c: CommitView) -> bool {
    &&& info.0 == trim(first_line(c.raw_message))
    &&& c.oid == Some(info.1)
}

pub open spec fn held_cancels(commits: Seq<CommitView>, r: int, c: CommitView) -> bool {
    match commits[r].revert {
        Some(info) => revert_cancels(info, c),
        None => false,
    }
}

/// Position in `held` of the first held revert that cancels `c`.
pub open spec fn find_held(commits: Seq<CommitView>, held: Seq<int>, c: CommitView) -> Option<int>
    decreases held.len(),
{
    if held.len() == 0 {
        None
    } else if held_cancels(commits, held[0], c) {
        Some(0int)
    } else {
        match find_held(commits, held.drop_first(), c) {
            Some(k) => Some(k + 1),
            None => None,
        }
    }
}

/// The held reverts (oldest first) and the removed indices after looking at
/// the first `n` commits of a newest-first list: a commit cancelled by a held
/// revert is removed together with that revert; an uncancelled revert is held.
pub open spec fn filter_state(commits: Seq<CommitView>, n: nat) -> (Seq<int>, Set<int>)
    decreases n,
{
    if n == 0 {
        (Seq::empty(), Set::empty())
    } else {
        let (held, removed) = filter_state(commits, (n - 1) as nat);
        let i = n - 1;
        let c = commits[i];
        match find_held(commits, held, c) {
            Some(p) => (held.remove(p), removed.insert(held[p]).insert(i)),
            None => if c.revert is Some {
                (held.push(i), removed)
            } else {
                (held, removed)
            },
        }
    }
}

/// The first `n` commits without the ones in `removed`, in order.
pub open spec fn kept_prefix(commits: Seq<CommitView>, removed: Set<int>, n: nat) -> Seq<CommitView>
    decreases n,
{
    if n == 0 {
        Seq::empty()
    } else {
        let rest = kept_prefix(commits, removed, (n - 1) as nat);
        if removed.contains(n - 1) {
            rest
        } else {
            rest.push(commits[n - 1])
        }
    }
}

/// What `filter_reverted_commits` keeps of a newest-first list.
pub open spec fn filter_reverted_spec(commits: Seq<CommitView>) -> Seq<CommitView> {
    kept_prefix(commits, filter_state(commits, commits.len()).1, commits.len())
}

proof fn lemma_filter_state_bounds(commits: Seq<CommitView>, n: nat)
    requires
        n <= commits.len(),
    ensures
        forall|k: int| 0 <= k < filter_state(commits, n).0.len() ==> 0 <= #[trigger] filter_state(
            commits,
            n,
        ).0[k] < n && commits[filter_state(commits, n).0[k]].revert is Some,
        forall|j: int| #[trigger] filter_state(commits, n).1.contains(j) ==> 0 <= j < n,
    decreases n,
{
    if n > 0 {
        lemma_filter_state_bounds(commits, (n - 1) as nat);
        let (held, removed) = filter_state(commits, (n - 1) as nat);
        let c = commits[n - 1];
        lemma_find_held_bounds(commits, held, c);
        match find_held(commits, held, c) {
            Some(p) => {
                let h2 = held.remove(p);
                assert forall|k: int| 0 <= k < h2.len() implies 0 <= #[trigger] h2[k] < n
                    && commits[h2[k]].revert is Some by {
                    if k < p {
                        assert(h2[k] == held[k]);
                    } else {
                        assert(h2[k] == held[k + 1]);
                    }
                }
            },
            None => {},
        }
    }
}

proof fn lemma_find_held_bounds(commits: Seq<CommitView>, held: Seq<int>, c: CommitView)
    ensures
        find_held(commits, held, c) matches Some(p) ==> 0 <= p < held.len() && held_cancels(
            commits,
            held[p],
            c,
        ) && forall|q: int| 0 <= q < p ==> !held_cancels(commits, #[trigger] held[q], c),
        find_held(commits, held, c) is None ==> forall|q: int|
            0 <= q < held.len() ==> !held_cancels(commits, #[trigger] held[q], c),
    decreases held.len(),
{
    if held.len() > 0 && !held_cancels(commits, held[0], c) {
        lemma_find_held_bounds(commits, held.drop_first(), c);
        if let Some(k) = find_held(commits, held.drop_first(), c) {
            assert forall|q: int| 0 <= q < k + 1 implies !held_cancels(commits, #[trigger] held[q], c) by {
                if q > 0 {
                    assert(held[q] == held.drop_first()[q - 1]);
                }
            }
        } else {
            assert forall|q: int| 0 <= q < held.len() implies !held_cancels(commits, #[trigger] held[q], c) by {
                if q > 0 {
                    assert(held[q] == held.drop_first()[q - 1]);
                }
            }
        }
    }
}

/// Whether the revert held at `r` cancels `c`.
fn held_cancels_exec(commits: &Vec<ConventionalCommit>, r: usize, header: &Vec<char>, c: &ConventionalCommit) -> (res: bool)
    requires
        r < commits.len(),
        header@ == trim(first_line(c.raw_message@)),
    ensures
        res == held_cancels(cviews(commits@), r as int, c@),
{
    assert(cviews(commits@)[r as int] == commits@[r as int]@);
    match &commits[r].revert {
        Some(info) => {
            let h = chars_of(info.header.as_str());
            if !crate::text::chars_eq(&h, header) {
                return false;
            }
            match &c.oid {
                Some(o) => *o == info.hash,
                None => false,
            }
        },
        None => false,
    }
}

/// Drop each revert commit together with the commit it reverts when both are
/// in the analyzed range. Input is newest-first: a held revert cancels the
/// first older commit matching its captured header and full hash, and dies
/// with its own revert info when cancelled itself; unmatched reverts are kept.
pub fn filter_reverted_commits(commits: Vec<ConventionalCommit>) -> (res: Vec<ConventionalCommit>)
    ensures
        cviews(res@) == filter_reverted_spec(cviews(commits@)),
{
    let ghost cv = cviews(commits@);
    let n = commits.len();
    let mut removed: Vec<bool> = Vec::new();
    let mut j: usize = 0;
    while j < n
        invariant
            j <= n,
            removed@.len() == j,
            forall|k: int| 0 <= k < j ==> !removed@[k],
        decreases n - j,
    {
        removed.push(false);
        j = j + 1;
    }
    let mut held: Vec<usize> = Vec::new();
    let mut i: usize = 0;
    while i < n
        invariant
            i <= n == commits.len(),
            cv == cviews(commits@),
            removed@.len() == n,
            held@.map_values(|x: usize| x as int) == filter_state(cv, i as nat).0,
            forall|k: int| 0 <= k < n ==> removed@[k] == filter_state(cv, i as nat).1.contains(k),
        decreases n - i,
    {
        proof {
            lemma_filter_state_bounds(cv, i as nat);
            lemma_filter_state_bounds(cv, (i + 1) as nat);
            lemma_find_held_bounds(cv, filter_state(cv, i as nat).0, cv[i as int]);
        }
        let ghost state = filter_state(cv, i as nat);
        assert(cv[i as int] == commits@[i as int]@);
        let ghost hs = held@.map_values(|x: usize| x as int);
        let raw = chars_of(commits[i].raw_message.as_str());
        let fl = first_line_chars(&raw);
        let header = trim_chars(&fl);
        let mut found: Option<usize> = None;
        let mut p: usize = 0;
        while p < held.len()
            invariant_except_break
                found is None,
            invariant
                p <= held.len(),
                hs == held@.map_values(|x: usize| x as int),
                hs == state.0,
                i < n == commits.len(),
                cv == cviews(commits@),
                header@ == trim(first_line(commits@[i as int].raw_message@)),
                forall|k: int| 0 <= k < hs.len() ==> 0 <= #[trigger] hs[k] < i,
                forall|q: int| 0 <= q < p ==> !held_cancels(cv, #[trigger] hs[q], cv[i as int]),
            ensures
                found matches Some(q) ==> q == p && p < held.len() && held_cancels(
                    cv,
                    hs[p as int],
                    cv[i as int],
                ),
                found is None ==> p == held.len(),
            decreases held.len() - p,
        {
            let r = held[p];
            assert(hs[p as int] == r as int);
            if held_cancels_exec(&commits, r, &header, &commits[i]) {
                found = Some(p);
                break;
            }
            p = p + 1;
        }
        proof {
            if found is None {
                assert(find_held(cv, hs, cv[i as int]) is None) by {
                    if let Some(q) = find_held(cv, hs, cv[i as int]) {
                        assert(!held_cancels(cv, hs[q], cv[i as int]));
                    }
                }
            }
        }
        match found {
            Some(p) => {
                assert(find_held(cv, hs, cv[i as int]) == Some(p as int)) by {
                    if let Some(q) = find_held(cv, hs, cv[i as int]) {
                        if q < p {
                            assert(!held_cancels(cv, hs[q], cv[i as int]));
                        }
                        if q > p {
                            assert(held_cancels(cv, hs[p as int], cv[i as int]));
                        }
                    } else {
                        assert(held_cancels(cv, hs[p as int], cv[i as int]));
                    }
                }
                let r = held[p];
                removed.set(r, true);
                removed.set(i, true);
                held.remove(p);
                assert(held@.map_values(|x: usize| x as int) =~= hs.remove(p as int));
            },
            None => {
                if commits[i].revert.is_some() {
                    held.push(i);
                    assert(held@.map_values(|x: usize| x as int) =~= hs.push(i as int));
                }
            },
        }
        i = i + 1;
    }
    let ghost orig = commits@;
    let ghost rem = filter_state(cv, n as nat).1;
    let mut commits = commits;
    let mut out: Vec<ConventionalCommit> = Vec::new();
    let mut k: usize = 0;
    while k < n
        invariant
            k <= n == orig.len(),
            removed@.len() == n,
            forall|x: int| 0 <= x < n ==> removed@[x] == rem.contains(x),
            commits@ == orig.skip(k as int),
            cv == cviews(orig),
            cviews(out@) == kept_prefix(cv, rem, k as nat),
        decreases n - k,
    {
        let c = commits.remove(0);
        assert(c == orig[k as int]);
        assert(cv[k as int] == c@);
        if !removed[k] {
            let ghost o0 = out@;
            out.push(c);
            assert(cviews(out@) =~= cviews(o0).push(cv[k as int]));
        }
        k = k + 1;
        assert(commits@ =~= orig.skip(k as int));
    }
    out
}

// ---------------------------------------------------------------------------
// Laws
// ---------------------------------------------------------------------------

proof fn lemma_no_revert_state(commits: Seq<CommitView>, n: nat)
    requires
        n <= commits.len(),
        forall|i: int| 0 <= i < commits.len() ==> (#[trigger] commits[i]).revert is None,
    ensures
        filter_state(commits, n).0 == Seq::<int>::empty(),
        filter_state(commits, n).1 == Set::<int>::empty(),
    decreases n,
{
    if n > 0 {
        lemma_no_revert_state(commits, (n - 1) as nat);
        assert(commits[n - 1].revert is None);
    }
}

proof fn lemma_kept_nothing_removed(commits: Seq<CommitView>, n: nat)
    requires
        n <= commits.len(),
    ensures
        kept_prefix(commits, Set::<int>::empty(), n) == commits.take(n as int),
    decreases n,
{
    if n > 0 {
        lemma_kept_nothing_removed(commits, (n - 1) as nat);
        assert(commits.take(n as int) =~= commits.take(n - 1).push(commits[n - 1]));
    }
}

/// A newest-first list without revert commits passes the revert filter
/// unchanged.
pub proof fn law_filter_without_reverts_is_identity(commits: Seq<CommitView>)
    requires
        forall|i: int| 0 <= i < commits.len() ==> (#[trigger] commits[i]).revert is None,
    ensures
        filter_reverted_spec(commits) == commits,
{
    lemma_no_revert_state(commits, commits.len());
    lemma_kept_nothing_removed(commits, commits.len());
    assert(commits.take(commits.len() as int) =~= commits);
}

/// The pairs (revert, reverted commit) that the filter cancels among the
/// first `n` commits of a newest-first list, in the order it finds them.
pub open spec fn cancelled_pairs(commits: Seq<CommitView>, n: nat) -> Seq<(int, int)>
    decreases n,
{
    if n == 0 {
        Seq::empty()
    } else {
        let pairs = cancelled_pairs(commits, (n - 1) as nat);
        let held = filter_state(commits, (n - 1) as nat).0;
        match find_held(commits, held, commits[n - 1]) {
            Some(p) => pairs.push((held[p], n - 1)),
            None => pairs,
        }
    }
}

/// Index `j` is one of the two members of some pair.
pub open spec fn paired(pairs: Seq<(int, int)>, j: int) -> bool {
    exists|k: int| 0 <= k < pairs.len() && (#[trigger] pairs[k].0 == j || pairs[k].1 == j)
}

/// No index is a member of two pairs.
pub open spec fn pairs_disjoint(pairs: Seq<(int, int)>) -> bool {
    forall|k: int, l: int|
        0 <= k < l < pairs.len() ==> #[trigger] pairs[k].0 != #[trigger] pairs[l].0 && pairs[k].0 != pairs[l].1
            && pairs[k].1 != pairs[l].0 && pairs[k].1 != pairs[l].1
}

/// The indices below `n` that are in no pair, in increasing order.
pub open spec fn unpaired_indices(pairs: Seq<(int, int)>, n: nat) -> Seq<int>
    decreases n,
{
    if n == 0 {
        Seq::empty()
    } else {
        let rest = unpaired_indices(pairs, (n - 1) as nat);
        if paired(pairs, n - 1) {
            rest
        } else {
            rest.push(n - 1)
        }
    }
}

proof fn lemma_paired_push(pairs: Seq<(int, int)>, q: (int, int), j: int)
    ensures
        paired(pairs.push(q), j) ==> (paired(pairs, j) || q.0 == j || q.1 == j),
        (paired(pairs, j) || q.0 == j || q.1 == j) ==> paired(pairs.push(q), j),
{
    let np = pairs.push(q);
    assert forall|k: int| 0 <= k < pairs.len() implies #[trigger] np[k] == pairs[k] by {}
    assert(np[pairs.len() as int] == q);
    if paired(pairs, j) {
        let k = choose|k: int| 0 <= k < pairs.len() && (#[trigger] pairs[k].0 == j || pairs[k].1 == j);
        assert(np[k].0 == j || np[k].1 == j);
    }
    if q.0 == j || q.1 == j {
        assert(np[pairs.len() as int].0 == j || np[pairs.len() as int].1 == j);
    }
    assert(paired(np, j) ==> (paired(pairs, j) || q.0 == j || q.1 == j)) by {
        if paired(np, j) {
            assert(exists|k: int| 0 <= k < np.len() && (#[trigger] np[k].0 == j || np[k].1 == j));
            let k = choose|k: int| 0 <= k < np.len() && (#[trigger] np[k].0 == j || np[k].1 == j);
            if k < pairs.len() {
                assert(np[k] == pairs[k]);
                assert(paired(pairs, j));
            } else {
                assert(np[k] == q);
            }
        }
    }
}

proof fn lemma_cancelled_pairs(commits: Seq<CommitView>, n: nat)
    requires
        n <= commits.len(),
    ensures
        forall|j: int| #[trigger] filter_state(commits, n).1.contains(j) <==> paired(cancelled_pairs(commits, n), j),
        forall|k: int|
            0 <= k < cancelled_pairs(commits, n).len() ==> 0 <= #[trigger] cancelled_pairs(commits, n)[k].0
                < cancelled_pairs(commits, n)[k].1 < n && held_cancels(
                commits,
                cancelled_pairs(commits, n)[k].0,
                commits[cancelled_pairs(commits, n)[k].1],
            ),
        pairs_disjoint(cancelled_pairs(commits, n)),
        forall|k: int, l: int|
            0 <= k < l < filter_state(commits, n).0.len() ==> #[trigger] filter_state(commits, n).0[k]
                < #[trigger] filter_state(commits, n).0[l],
        forall|k: int|
            0 <= k < filter_state(commits, n).0.len() ==> 0 <= #[trigger] filter_state(commits, n).0[k] < n
                && !paired(cancelled_pairs(commits, n), filter_state(commits, n).0[k]),
    decreases n,
{
    if n > 0 {
        let m = (n - 1) as nat;
        let i = n - 1;
        lemma_cancelled_pairs(commits, m);
        let (held, removed) = filter_state(commits, m);
        let pairs = cancelled_pairs(commits, m);
        let c = commits[i];
        lemma_find_held_bounds(commits, held, c);
        assert(!paired(pairs, i)) by {
            if paired(pairs, i) {
                let k = choose|k: int| 0 <= k < pairs.len() && (#[trigger] pairs[k].0 == i || pairs[k].1 == i);
            }
        }
        match find_held(commits, held, c) {
            Some(p) => {
                let r = held[p];
                let q = (r, i);
                let np = pairs.push(q);
                let nh = held.remove(p);
                assert(np == cancelled_pairs(commits, n));
                assert(nh == filter_state(commits, n).0);
                assert(filter_state(commits, n).1 == removed.insert(r).insert(i));
                assert forall|j: int| #[trigger] filter_state(commits, n).1.contains(j) <==> paired(np, j) by {
                    lemma_paired_push(pairs, q, j);
                }
                assert forall|k: int| 0 <= k < np.len() implies 0 <= #[trigger] np[k].0 < np[k].1 < n
                    && held_cancels(commits, np[k].0, commits[np[k].1]) by {
                    if k < pairs.len() {
                        assert(np[k] == pairs[k]);
                    }
                }
                assert forall|k: int, l: int| 0 <= k < l < np.len() implies #[trigger] np[k].0 != #[trigger] np[l].0
                    && np[k].0 != np[l].1 && np[k].1 != np[l].0 && np[k].1 != np[l].1 by {
                    assert(np[k] == pairs[k]);
                    if l < pairs.len() {
                        assert(np[l] == pairs[l]);
                    } else {
                        assert(np[l] == q);
                        assert(!paired(pairs, r));
                        assert(pairs[k].0 != r && pairs[k].1 != r);
                    }
                }
                assert forall|k: int, l: int| 0 <= k < l < nh.len() implies #[trigger] nh[k] < #[trigger] nh[l] by {
                    let k0 = if k < p { k } else { k + 1 };
                    let l0 = if l < p { l } else { l + 1 };
                    assert(nh[k] == held[k0]);
                    assert(nh[l] == held[l0]);
                }
                assert forall|k: int| 0 <= k < nh.len() implies 0 <= #[trigger] nh[k] < n && !paired(np, nh[k]) by {
                    let k0 = if k < p { k } else { k + 1 };
                    assert(nh[k] == held[k0]);
                    if k0 < p {
                        assert(held[k0] < held[p]);
                    } else {
                        assert(held[p] < held[k0]);
                    }
                    lemma_paired_push(pairs, q, nh[k]);
                }
            },
            None => {
                assert(pairs == cancelled_pairs(commits, n));
                if c.revert is Some {
                    let nh = held.push(i);
                    assert(nh == filter_state(commits, n).0);
                    assert forall|k: int, l: int| 0 <= k < l < nh.len() implies #[trigger] nh[k] < #[trigger] nh[l] by {
                        assert(nh[k] == held[k]);
                        if l < held.len() {
                            assert(nh[l] == held[l]);
                        }
                    }
                    assert forall|k: int| 0 <= k < nh.len() implies 0 <= #[trigger] nh[k] < n && !paired(pairs, nh[k]) by {
                        if k < held.len() {
                            assert(nh[k] == held[k]);
                        }
                    }
                }
            },
        }
    }
}

proof fn lemma_kept_unpaired(commits: Seq<CommitView>, removed: Set<int>, pairs: Seq<(int, int)>, n: nat)
    requires
        forall|j: int| #[trigger] removed.contains(j) <==> paired(pairs, j),
    ensures
        kept_prefix(commits, removed, n) == unpaired_indices(pairs, n).map_values(|i: int| commits[i]),
        forall|k: int|
            0 <= k < unpaired_indices(pairs, n).len() ==> 0 <= #[trigger] unpaired_indices(pairs, n)[k] < n,
        forall|k: int, l: int|
            0 <= k < l < unpaired_indices(pairs, n).len() ==> #[trigger] unpaired_indices(pairs, n)[k]
                < #[trigger] unpaired_indices(pairs, n)[l],
    decreases n,
{
    if n > 0 {
        lemma_kept_unpaired(commits, removed, pairs, (n - 1) as nat);
        let rest = unpaired_indices(pairs, (n - 1) as nat);
        let out = unpaired_indices(pairs, n);
        if !paired(pairs, n - 1) {
            assert(out == rest.push(n - 1));
            assert(kept_prefix(commits, removed, n) =~= out.map_values(|i: int| commits[i])) by {
                assert(rest.map_values(|i: int| commits[i]).push(commits[n - 1]) =~= out.map_values(
                    |i: int| commits[i],
                ));
            }
            assert forall|k: int, l: int| 0 <= k < l < out.len() implies #[trigger] out[k] < #[trigger] out[l] by {
                assert(out[k] == rest[k]);
                if l < rest.len() {
                    assert(out[l] == rest[l]);
                }
            }
            assert forall|k: int| 0 <= k < out.len() implies 0 <= #[trigger] out[k] < n by {
                if k < rest.len() {
                    assert(out[k] == rest[k]);
                }
            }
        }
    }
}

/// The revert filter removes commits in pairs and keeps the rest in order:
/// each pair is a revert and the older commit it reverts (matching header and
/// full hash), no commit belongs to two pairs, and what is kept is exactly
/// the input without the members of the pairs, in the input's order.
pub proof fn law_filter_removes_pairs_in_order(commits: Seq<CommitView>)
    ensures
        forall|k: int|
            0 <= k < cancelled_pairs(commits, commits.len()).len() ==> 0 <= #[trigger] cancelled_pairs(
                commits,
                commits.len(),
            )[k].0 < cancelled_pairs(commits, commits.len())[k].1 < commits.len() && held_cancels(
                commits,
                cancelled_pairs(commits, commits.len())[k].0,
                commits[cancelled_pairs(commits, commits.len())[k].1],
            ),
        pairs_disjoint(cancelled_pairs(commits, commits.len())),
        filter_reverted_spec(commits) == unpaired_indices(cancelled_pairs(commits, commits.len()), commits.len()).map_values(
            |i: int| commits[i],
        ),
        forall|k: int, l: int|
            0 <= k < l < unpaired_indices(cancelled_pairs(commits, commits.len()), commits.len()).len()
                ==> #[trigger] unpaired_indices(cancelled_pairs(commits, commits.len()), commits.len())[k]
                < #[trigger] unpaired_indices(cancelled_pairs(commits, commits.len()), commits.len())[l],
{
    let n = commits.len();
    lemma_cancelled_pairs(commits, n);
    lemma_kept_unpaired(commits, filter_state(commits, n).1, cancelled_pairs(commits, n), n);
}

pub open spec fn distinct(s: Seq<Seq<char>>) -> bool {
    forall|i: int, j: int| 0 <= i < j < s.len() ==> s[i] != s[j]
}

proof fn lemma_dedup_from(acc: Seq<Seq<char>>, items: Seq<Seq<char>>)
    requires
        distinct(acc),
    ensures
        distinct(dedup_from(acc, items)),
        forall|x: Seq<char>| #[trigger] dedup_from(acc, items).contains(x) <==> (acc.contains(x) || items.contains(x)),
    decreases items.len(),
{
    if items.len() > 0 {
        let x0 = items[0];
        let step = dedup_step(acc, x0);
        if !acc.contains(x0) {
            assert forall|i: int, j: int| 0 <= i < j < step.len() implies step[i] != step[j] by {
                if j == acc.len() {
                    assert(step[i] == acc[i]);
                    assert(acc.contains(acc[i]));
                }
            }
        }
        assert forall|x: Seq<char>| #[trigger] step.contains(x) <==> (acc.contains(x) || x == x0) by {
            if !acc.contains(x0) {
                if x == x0 {
                    assert(step[acc.len() as int] == x0);
                }
                if step.contains(x) && x != x0 {
                    let k = choose|k: int| 0 <= k < step.len() && step[k] == x;
                    assert(k < acc.len());
                    assert(acc[k] == x);
                }
                if acc.contains(x) {
                    let k = choose|k: int| 0 <= k < acc.len() && acc[k] == x;
                    assert(step[k] == x);
                }
            }
        }
        lemma_dedup_from(step, items.drop_first());
        assert forall|x: Seq<char>| items.contains(x) <==> (x == x0 || #[trigger] items.drop_first().contains(x)) by {
            if items.contains(x) && x != x0 {
                let k = choose|k: int| 0 <= k < items.len() && items[k] == x;
                assert(items.drop_first()[k - 1] == x);
            }
            if items.drop_first().contains(x) {
                let k = choose|k: int| 0 <= k < items.drop_first().len() && items.drop_first()[k] == x;
                assert(items[k + 1] == x);
            }
            if x == x0 {
                assert(items[0] == x);
            }
        }
    }
}

/// The issues a commit references are listed once each, and they are exactly
/// the candidates found in the message.
pub proof fn law_referenced_issues_distinct(message: Seq<char>)
    ensures
        distinct(dedup(issue_candidates(message))),
        forall|x: Seq<char>| #[trigger] dedup(issue_candidates(message)).contains(x) <==> issue_candidates(message).contains(x),
{
    lemma_dedup_from(Seq::empty(), issue_candidates(message));
}

} // verus!

