//! The "released" comments posted on the pull requests and issues a release
//! resolves, linking each release by name.
use vstd::prelude::*;

use crate::forge::{encode_tag_of, release_url, release_url_spec, RepoRef};
use crate::step::github::{backticked, join_spec, success_spec};
use crate::text::{chars_of, replace_all, string_from};

verus! {

/// A release a resolved issue or pull request shipped in: its display name
/// for the link text and its tag for the release URL.
#[derive(Debug)]
pub struct ReleasedIn {
    pub name: String,
    pub tag: String,
}

/// How a release is mentioned: a link to its release page by name, or the
/// name in backticks when there is no repository to link to (dry run).
pub open spec fn mention_spec(r: ReleasedIn, repo: Option<RepoRef>) -> Seq<char> {
    match repo {
        Some(repo) => seq!['['] + r.name@ + seq![']', '('] + release_url_spec(repo, encode_tag_of(r.tag@)) + seq![')'],
        None => backticked(r.name@),
    }
}

pub open spec fn mentions(released_in: Seq<ReleasedIn>, repo: Option<RepoRef>) -> Seq<Seq<char>> {
    released_in.map_values(|r: ReleasedIn| mention_spec(r, repo))
}

fn mention(r: &ReleasedIn, repo: Option<&RepoRef>) -> (res: Vec<char>)
    ensures
        res@ == mention_spec(*r, match repo {
            Some(x) => Some(*x),
            None => None,
        }),
{
    match repo {
        Some(repo) => {
            let url = release_url(repo, r.tag.as_str());
            let mut v: Vec<char> = Vec::new();
            v.push('[');
            crate::text::append_str(&mut v, r.name.as_str());
            v.push(']');
            v.push('(');
            crate::text::append_str(&mut v, url.as_str());
            v.push(')');
            assert(v@ =~= mention_spec(*r, Some(*repo)));
            v
        },
        None => {
            let mut v: Vec<char> = Vec::new();
            v.push('`');
            crate::text::append_str(&mut v, r.name.as_str());
            v.push('`');
            assert(v@ =~= backticked(r.name@));
            v
        },
    }
}

/// The success comment: the template with `{releases}` and `{tag}` (the
/// first release's tag) substituted, or the default sentence listing the
/// releases.
pub fn render_success_comment(template: Option<&str>, released_in: &Vec<ReleasedIn>, repo: Option<&RepoRef>) -> (res: String)
    ensures
        res@ == success_spec(
            match template {
                Some(t) => Some(t@),
                None => None,
            },
            mentions(released_in@, match repo {
                Some(x) => Some(*x),
                None => None,
            }),
            if released_in@.len() > 0 {
                released_in@[0].tag@
            } else {
                Seq::empty()
            },
        ),
{
    let ghost rp = match repo {
        Some(x) => Some(*x),
        None => None::<RepoRef>,
    };
    let ghost ms = mentions(released_in@, rp);
    let mut items: Vec<Vec<char>> = Vec::new();
    let mut i: usize = 0;
    while i < released_in.len()
        invariant
            i <= released_in@.len(),
            rp == match repo {
                Some(x) => Some(*x),
                None => None::<RepoRef>,
            },
            ms == mentions(released_in@, rp),
            items@.map_values(|v: Vec<char>| v@) == ms.take(i as int),
        decreases released_in@.len() - i,
    {
        let m = mention(&released_in[i], repo);
        let ghost mv = m@;
        let ghost i0 = items@;
        items.push(m);
        assert(items@.map_values(|v: Vec<char>| v@) =~= i0.map_values(|v: Vec<char>| v@).push(mv));
        assert(ms[i as int] == mv);
        assert(ms.take((i + 1) as int) =~= ms.take(i as int).push(ms[i as int]));
        assert(items@.map_values(|v: Vec<char>| v@) =~= ms.take((i + 1) as int));
        i = i + 1;
    }
    assert(ms.take(released_in@.len() as int) =~= ms);
    let first: &str = if released_in.len() > 0 {
        released_in[0].tag.as_str()
    } else {
        proof {
            reveal_strlit("");
        }
        assert(""@ =~= Seq::<char>::empty());
        ""
    };
    assert(first@ == (if released_in@.len() > 0 {
        released_in@[0].tag@
    } else {
        Seq::<char>::empty()
    }));
    crate::step::github::render_success(template, &items, first)
}

} // verus!
