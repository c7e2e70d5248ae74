//! The order `semver` gives versions (`Ord for semver::Version`), as a
//! comparison of plain values, and the facts that make it a total order.
use vstd::prelude::*;

use crate::text::{all_digits, split_char};
use crate::version::VersionParts;

verus! {

/// `-1`, `0` or `1` as `a` is below, equal to or above `b`.
pub open spec fn int_order(a: int, b: int) -> int {
    if a < b {
        -1
    } else if a > b {
        1
    } else {
        0
    }
}

/// The first comparison, unless it finds the two equal.
pub open spec fn then_order(first: int, second: int) -> int {
    if first != 0 {
        first
    } else {
        second
    }
}

/// `str` order: character by character, a proper prefix first.
pub open spec fn lex_order(a: Seq<char>, b: Seq<char>) -> int
    decreases a.len(),
{
    if a.len() == 0 {
        if b.len() == 0 {
            0
        } else {
            -1
        }
    } else if b.len() == 0 {
        1
    } else if a[0] != b[0] {
        int_order(a[0] as int, b[0] as int)
    } else {
        lex_order(a.drop_first(), b.drop_first())
    }
}

/// `s` without its leading `0`s.
pub open spec fn trim_zeros(s: Seq<char>) -> Seq<char>
    decreases s.len(),
{
    if s.len() > 0 && s[0] == '0' {
        trim_zeros(s.drop_first())
    } else {
        s
    }
}

/// Two numeric identifiers: in a prerelease by length, then digits; in
/// build metadata by value (length and digits without leading zeros), then
/// by length.
pub open spec fn numeric_order(a: Seq<char>, b: Seq<char>, build: bool) -> int {
    if build {
        then_order(
            int_order(trim_zeros(a).len() as int, trim_zeros(b).len() as int),
            then_order(lex_order(trim_zeros(a), trim_zeros(b)), int_order(a.len() as int, b.len() as int)),
        )
    } else {
        then_order(int_order(a.len() as int, b.len() as int), lex_order(a, b))
    }
}

/// Two identifiers: numeric ones below the others, numeric ones compared as
/// numbers, the others by characters.
pub open spec fn ident_order(a: Seq<char>, b: Seq<char>, build: bool) -> int {
    if all_digits(a) && all_digits(b) {
        numeric_order(a, b, build)
    } else if all_digits(a) {
        -1
    } else if all_digits(b) {
        1
    } else {
        lex_order(a, b)
    }
}

/// Dot-separated identifiers, one by one; more of them is higher when all
/// before are equal.
pub open spec fn idents_order(xs: Seq<Seq<char>>, ys: Seq<Seq<char>>, build: bool) -> int
    decreases xs.len(),
{
    if xs.len() == 0 {
        if ys.len() == 0 {
            0
        } else {
            -1
        }
    } else if ys.len() == 0 {
        1
    } else {
        then_order(ident_order(xs[0], ys[0], build), idents_order(xs.drop_first(), ys.drop_first(), build))
    }
}

/// Prereleases: none is above any; else by identifiers.
pub open spec fn pre_order(a: Seq<char>, b: Seq<char>) -> int {
    if a.len() == 0 && b.len() == 0 {
        0
    } else if a.len() == 0 {
        1
    } else if b.len() == 0 {
        -1
    } else {
        idents_order(split_char(a, '.'), split_char(b, '.'), false)
    }
}

/// Build metadata, by identifiers.
pub open spec fn build_order(a: Seq<char>, b: Seq<char>) -> int {
    idents_order(split_char(a, '.'), split_char(b, '.'), true)
}

/// Versions: major, minor, patch, prerelease, then build metadata.
pub open spec fn version_order(a: VersionParts, b: VersionParts) -> int {
    then_order(
        int_order(a.0 as int, b.0 as int),
        then_order(
            int_order(a.1 as int, b.1 as int),
            then_order(int_order(a.2 as int, b.2 as int), then_order(pre_order(a.3, b.3), build_order(a.4, b.4))),
        ),
    )
}

/// The comparisons among three values behave as a total order does: each is
/// `-1`, `0` or `1`, swapping the two sides negates it, a value equals
/// itself, and "not above" carries over in every order of the three.
pub open spec fn order3(ab: int, ba: int, bc: int, cb: int, ac: int, ca: int, aa: int, bb: int, cc: int) -> bool {
    &&& -1 <= ab <= 1 && ab == -ba
    &&& -1 <= bc <= 1 && bc == -cb
    &&& -1 <= ac <= 1 && ac == -ca
    &&& aa == 0 && bb == 0 && cc == 0
    &&& (ab <= 0 && bc <= 0 ==> ac <= 0)
    &&& (ac <= 0 && cb <= 0 ==> ab <= 0)
    &&& (ba <= 0 && ac <= 0 ==> bc <= 0)
    &&& (bc <= 0 && ca <= 0 ==> ba <= 0)
    &&& (ca <= 0 && ab <= 0 ==> cb <= 0)
    &&& (cb <= 0 && ba <= 0 ==> ca <= 0)
}

proof fn lemma_then_order3(
    ab: int, ba: int, bc: int, cb: int, ac: int, ca: int, aa: int, bb: int, cc: int,
    ab2: int, ba2: int, bc2: int, cb2: int, ac2: int, ca2: int, aa2: int, bb2: int, cc2: int,
)
    requires
        order3(ab, ba, bc, cb, ac, ca, aa, bb, cc),
        order3(ab2, ba2, bc2, cb2, ac2, ca2, aa2, bb2, cc2),
    ensures
        order3(
            then_order(ab, ab2), then_order(ba, ba2), then_order(bc, bc2), then_order(cb, cb2),
            then_order(ac, ac2), then_order(ca, ca2), then_order(aa, aa2), then_order(bb, bb2), then_order(cc, cc2),
        ),
{
}

proof fn lemma_int_order3(a: int, b: int, c: int)
    ensures
        order3(int_order(a, b), int_order(b, a), int_order(b, c), int_order(c, b), int_order(a, c), int_order(c, a),
            int_order(a, a), int_order(b, b), int_order(c, c)),
{
}

proof fn lemma_lex_pair(a: Seq<char>, b: Seq<char>)
    ensures
        -1 <= lex_order(a, b) <= 1,
        lex_order(a, b) == -lex_order(b, a),
        lex_order(a, a) == 0,
    decreases a.len(),
{
    if a.len() > 0 {
        lemma_lex_pair(a.drop_first(), a.drop_first());
        if b.len() > 0 {
            lemma_lex_pair(a.drop_first(), b.drop_first());
        }
    }
}

proof fn lemma_lex_trans(a: Seq<char>, b: Seq<char>, c: Seq<char>)
    requires
        lex_order(a, b) <= 0,
        lex_order(b, c) <= 0,
    ensures
        lex_order(a, c) <= 0,
    decreases a.len(),
{
    lemma_lex_pair(a, b);
    lemma_lex_pair(b, c);
    if a.len() > 0 && b.len() > 0 && c.len() > 0 && a[0] == b[0] && b[0] == c[0] {
        lemma_lex_trans(a.drop_first(), b.drop_first(), c.drop_first());
    }
}

proof fn lemma_lex_order3(a: Seq<char>, b: Seq<char>, c: Seq<char>)
    ensures
        order3(lex_order(a, b), lex_order(b, a), lex_order(b, c), lex_order(c, b), lex_order(a, c), lex_order(c, a),
            lex_order(a, a), lex_order(b, b), lex_order(c, c)),
{
    lemma_lex_pair(a, b);
    lemma_lex_pair(b, c);
    lemma_lex_pair(a, c);
    lemma_lex_pair(c, a);
    if lex_order(a, b) <= 0 && lex_order(b, c) <= 0 {
        lemma_lex_trans(a, b, c);
    }
    if lex_order(a, c) <= 0 && lex_order(c, b) <= 0 {
        lemma_lex_trans(a, c, b);
    }
    if lex_order(b, a) <= 0 && lex_order(a, c) <= 0 {
        lemma_lex_trans(b, a, c);
    }
    if lex_order(b, c) <= 0 && lex_order(c, a) <= 0 {
        lemma_lex_trans(b, c, a);
    }
    if lex_order(c, a) <= 0 && lex_order(a, b) <= 0 {
        lemma_lex_trans(c, a, b);
    }
    if lex_order(c, b) <= 0 && lex_order(b, a) <= 0 {
        lemma_lex_trans(c, b, a);
    }
}

proof fn lemma_numeric_order3(a: Seq<char>, b: Seq<char>, c: Seq<char>, build: bool)
    ensures
        order3(numeric_order(a, b, build), numeric_order(b, a, build), numeric_order(b, c, build),
            numeric_order(c, b, build), numeric_order(a, c, build), numeric_order(c, a, build),
            numeric_order(a, a, build), numeric_order(b, b, build), numeric_order(c, c, build)),
{
    if build {
        let (ta, tb, tc) = (trim_zeros(a), trim_zeros(b), trim_zeros(c));
        lemma_int_order3(ta.len() as int, tb.len() as int, tc.len() as int);
        lemma_lex_order3(ta, tb, tc);
        lemma_int_order3(a.len() as int, b.len() as int, c.len() as int);
        lemma_then_order3(
            lex_order(ta, tb), lex_order(tb, ta), lex_order(tb, tc), lex_order(tc, tb), lex_order(ta, tc), lex_order(tc, ta),
            lex_order(ta, ta), lex_order(tb, tb), lex_order(tc, tc),
            int_order(a.len() as int, b.len() as int), int_order(b.len() as int, a.len() as int),
            int_order(b.len() as int, c.len() as int), int_order(c.len() as int, b.len() as int),
            int_order(a.len() as int, c.len() as int), int_order(c.len() as int, a.len() as int),
            int_order(a.len() as int, a.len() as int), int_order(b.len() as int, b.len() as int),
            int_order(c.len() as int, c.len() as int),
        );
        lemma_then_order3(
            int_order(ta.len() as int, tb.len() as int), int_order(tb.len() as int, ta.len() as int),
            int_order(tb.len() as int, tc.len() as int), int_order(tc.len() as int, tb.len() as int),
            int_order(ta.len() as int, tc.len() as int), int_order(tc.len() as int, ta.len() as int),
            int_order(ta.len() as int, ta.len() as int), int_order(tb.len() as int, tb.len() as int),
            int_order(tc.len() as int, tc.len() as int),
            then_order(lex_order(ta, tb), int_order(a.len() as int, b.len() as int)),
            then_order(lex_order(tb, ta), int_order(b.len() as int, a.len() as int)),
            then_order(lex_order(tb, tc), int_order(b.len() as int, c.len() as int)),
            then_order(lex_order(tc, tb), int_order(c.len() as int, b.len() as int)),
            then_order(lex_order(ta, tc), int_order(a.len() as int, c.len() as int)),
            then_order(lex_order(tc, ta), int_order(c.len() as int, a.len() as int)),
            then_order(lex_order(ta, ta), int_order(a.len() as int, a.len() as int)),
            then_order(lex_order(tb, tb), int_order(b.len() as int, b.len() as int)),
            then_order(lex_order(tc, tc), int_order(c.len() as int, c.len() as int)),
        );
    } else {
        lemma_int_order3(a.len() as int, b.len() as int, c.len() as int);
        lemma_lex_order3(a, b, c);
        lemma_then_order3(
            int_order(a.len() as int, b.len() as int), int_order(b.len() as int, a.len() as int),
            int_order(b.len() as int, c.len() as int), int_order(c.len() as int, b.len() as int),
            int_order(a.len() as int, c.len() as int), int_order(c.len() as int, a.len() as int),
            int_order(a.len() as int, a.len() as int), int_order(b.len() as int, b.len() as int),
            int_order(c.len() as int, c.len() as int),
            lex_order(a, b), lex_order(b, a), lex_order(b, c), lex_order(c, b), lex_order(a, c), lex_order(c, a),
            lex_order(a, a), lex_order(b, b), lex_order(c, c),
        );
    }
}

proof fn lemma_ident_order3(a: Seq<char>, b: Seq<char>, c: Seq<char>, build: bool)
    ensures
        order3(ident_order(a, b, build), ident_order(b, a, build), ident_order(b, c, build),
            ident_order(c, b, build), ident_order(a, c, build), ident_order(c, a, build),
            ident_order(a, a, build), ident_order(b, b, build), ident_order(c, c, build)),
{
    lemma_numeric_order3(a, b, c, build);
    lemma_lex_order3(a, b, c);
}

proof fn lemma_idents_pair(xs: Seq<Seq<char>>, ys: Seq<Seq<char>>, build: bool)
    ensures
        -1 <= idents_order(xs, ys, build) <= 1,
        idents_order(xs, ys, build) == -idents_order(ys, xs, build),
        idents_order(xs, xs, build) == 0,
    decreases xs.len(),
{
    if xs.len() > 0 {
        lemma_idents_pair(xs.drop_first(), xs.drop_first(), build);
        lemma_ident_order3(xs[0], xs[0], xs[0], build);
        if ys.len() > 0 {
            lemma_idents_pair(xs.drop_first(), ys.drop_first(), build);
            lemma_ident_order3(xs[0], ys[0], ys[0], build);
        }
    }
}

proof fn lemma_idents_trans(xs: Seq<Seq<char>>, ys: Seq<Seq<char>>, zs: Seq<Seq<char>>, build: bool)
    requires
        idents_order(xs, ys, build) <= 0,
        idents_order(ys, zs, build) <= 0,
    ensures
        idents_order(xs, zs, build) <= 0,
    decreases xs.len(),
{
    lemma_idents_pair(xs, ys, build);
    lemma_idents_pair(ys, zs, build);
    if xs.len() > 0 && ys.len() > 0 && zs.len() > 0 {
        lemma_ident_order3(xs[0], ys[0], zs[0], build);
        let (xr, yr, zr) = (xs.drop_first(), ys.drop_first(), zs.drop_first());
        if idents_order(xr, yr, build) <= 0 && idents_order(yr, zr, build) <= 0 {
            lemma_idents_trans(xr, yr, zr, build);
        }
    }
}

proof fn lemma_idents_order3(xs: Seq<Seq<char>>, ys: Seq<Seq<char>>, zs: Seq<Seq<char>>, build: bool)
    ensures
        order3(idents_order(xs, ys, build), idents_order(ys, xs, build), idents_order(ys, zs, build),
            idents_order(zs, ys, build), idents_order(xs, zs, build), idents_order(zs, xs, build),
            idents_order(xs, xs, build), idents_order(ys, ys, build), idents_order(zs, zs, build)),
{
    lemma_idents_pair(xs, ys, build);
    lemma_idents_pair(ys, zs, build);
    lemma_idents_pair(xs, zs, build);
    lemma_idents_pair(zs, xs, build);
    if idents_order(xs, ys, build) <= 0 && idents_order(ys, zs, build) <= 0 {
        lemma_idents_trans(xs, ys, zs, build);
    }
    if idents_order(xs, zs, build) <= 0 && idents_order(zs, ys, build) <= 0 {
        lemma_idents_trans(xs, zs, ys, build);
    }
    if idents_order(ys, xs, build) <= 0 && idents_order(xs, zs, build) <= 0 {
        lemma_idents_trans(ys, xs, zs, build);
    }
    if idents_order(ys, zs, build) <= 0 && idents_order(zs, xs, build) <= 0 {
        lemma_idents_trans(ys, zs, xs, build);
    }
    if idents_order(zs, xs, build) <= 0 && idents_order(xs, ys, build) <= 0 {
        lemma_idents_trans(zs, xs, ys, build);
    }
    if idents_order(zs, ys, build) <= 0 && idents_order(ys, xs, build) <= 0 {
        lemma_idents_trans(zs, ys, xs, build);
    }
}

proof fn lemma_pre_order3(a: Seq<char>, b: Seq<char>, c: Seq<char>)
    ensures
        order3(pre_order(a, b), pre_order(b, a), pre_order(b, c), pre_order(c, b), pre_order(a, c), pre_order(c, a),
            pre_order(a, a), pre_order(b, b), pre_order(c, c)),
{
    lemma_idents_order3(split_char(a, '.'), split_char(b, '.'), split_char(c, '.'), false);
}

proof fn lemma_build_order3(a: Seq<char>, b: Seq<char>, c: Seq<char>)
    ensures
        order3(build_order(a, b), build_order(b, a), build_order(b, c), build_order(c, b), build_order(a, c),
            build_order(c, a), build_order(a, a), build_order(b, b), build_order(c, c)),
{
    lemma_idents_order3(split_char(a, '.'), split_char(b, '.'), split_char(c, '.'), true);
}

/// The version order is a total order: each comparison is `-1`, `0` or
/// `1`, swapping the sides negates it, every version equals itself, and
/// "not above" is transitive among any three versions.
pub proof fn law_version_order(a: VersionParts, b: VersionParts, c: VersionParts)
    ensures
        order3(version_order(a, b), version_order(b, a), version_order(b, c), version_order(c, b),
            version_order(a, c), version_order(c, a), version_order(a, a), version_order(b, b), version_order(c, c)),
{
    lemma_pre_order3(a.3, b.3, c.3);
    lemma_build_order3(a.4, b.4, c.4);
    lemma_then_order3(
        pre_order(a.3, b.3), pre_order(b.3, a.3), pre_order(b.3, c.3), pre_order(c.3, b.3), pre_order(a.3, c.3),
        pre_order(c.3, a.3), pre_order(a.3, a.3), pre_order(b.3, b.3), pre_order(c.3, c.3),
        build_order(a.4, b.4), build_order(b.4, a.4), build_order(b.4, c.4), build_order(c.4, b.4), build_order(a.4, c.4),
        build_order(c.4, a.4), build_order(a.4, a.4), build_order(b.4, b.4), build_order(c.4, c.4),
    );
    let p = |x: VersionParts, y: VersionParts| then_order(pre_order(x.3, y.3), build_order(x.4, y.4));
    lemma_int_order3(a.2 as int, b.2 as int, c.2 as int);
    lemma_then_order3(
        int_order(a.2 as int, b.2 as int), int_order(b.2 as int, a.2 as int), int_order(b.2 as int, c.2 as int),
        int_order(c.2 as int, b.2 as int), int_order(a.2 as int, c.2 as int), int_order(c.2 as int, a.2 as int),
        int_order(a.2 as int, a.2 as int), int_order(b.2 as int, b.2 as int), int_order(c.2 as int, c.2 as int),
        p(a, b), p(b, a), p(b, c), p(c, b), p(a, c), p(c, a), p(a, a), p(b, b), p(c, c),
    );
    let q = |x: VersionParts, y: VersionParts| then_order(int_order(x.2 as int, y.2 as int), p(x, y));
    lemma_int_order3(a.1 as int, b.1 as int, c.1 as int);
    lemma_then_order3(
        int_order(a.1 as int, b.1 as int), int_order(b.1 as int, a.1 as int), int_order(b.1 as int, c.1 as int),
        int_order(c.1 as int, b.1 as int), int_order(a.1 as int, c.1 as int), int_order(c.1 as int, a.1 as int),
        int_order(a.1 as int, a.1 as int), int_order(b.1 as int, b.1 as int), int_order(c.1 as int, c.1 as int),
        q(a, b), q(b, a), q(b, c), q(c, b), q(a, c), q(c, a), q(a, a), q(b, b), q(c, c),
    );
    let r = |x: VersionParts, y: VersionParts| then_order(int_order(x.1 as int, y.1 as int), q(x, y));
    lemma_int_order3(a.0 as int, b.0 as int, c.0 as int);
    lemma_then_order3(
        int_order(a.0 as int, b.0 as int), int_order(b.0 as int, a.0 as int), int_order(b.0 as int, c.0 as int),
        int_order(c.0 as int, b.0 as int), int_order(a.0 as int, c.0 as int), int_order(c.0 as int, a.0 as int),
        int_order(a.0 as int, a.0 as int), int_order(b.0 as int, b.0 as int), int_order(c.0 as int, c.0 as int),
        r(a, b), r(b, a), r(b, c), r(c, b), r(a, c), r(c, a), r(a, a), r(b, b), r(c, c),
    );
}

} // verus!
