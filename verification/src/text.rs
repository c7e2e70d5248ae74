//! Character-level string helpers with specifications over `Seq<char>`.
//!
//! The library works on strings as character sequences; these helpers give
//! the usual `str` operations (`replace`, `split_once`, `trim`, `lines`,
//! integer formatting and parsing) an exact meaning that the rest of the
//! crate states its contracts in.
use vstd::prelude::*;

verus! {

// ---------------------------------------------------------------------------
// Specifications
// ---------------------------------------------------------------------------

/// Index of the first occurrence of `pat` in `s` (a non-empty `pat`).
pub open spec fn first_match(s: Seq<char>, pat: Seq<char>) -> Option<int>
    decreases s.len(),
{
    if pat.is_prefix_of(s) {
        Some(0int)
    } else if s.len() == 0 {
        None
    } else {
        match first_match(s.drop_first(), pat) {
            Some(k) => Some(k + 1),
            None => None,
        }
    }
}

/// `s` holds `pat` somewhere (`str::contains`).
pub open spec fn contains_seq(s: Seq<char>, pat: Seq<char>) -> bool {
    first_match(s, pat) is Some
}

/// `str::split_once`: the parts before and after the first occurrence of `pat`.
pub open spec fn split_once(s: Seq<char>, pat: Seq<char>) -> Option<(Seq<char>, Seq<char>)> {
    match first_match(s, pat) {
        Some(i) => Some((s.take(i), s.skip(i + pat.len()))),
        None => None,
    }
}

/// `str::replace` with a non-empty pattern: every non-overlapping occurrence of
/// `from`, scanning left to right, is replaced by `to`.
pub open spec fn replace_all(s: Seq<char>, from: Seq<char>, to: Seq<char>) -> Seq<char>
    decreases s.len(),
{
    if from.len() == 0 || s.len() == 0 {
        s
    } else if from.is_prefix_of(s) {
        to + replace_all(s.skip(from.len() as int), from, to)
    } else {
        seq![s[0]] + replace_all(s.drop_first(), from, to)
    }
}

/// The characters up to (excluding) the first `c`, or all of `s`.
pub open spec fn take_until(s: Seq<char>, c: char) -> Seq<char>
    decreases s.len(),
{
    if s.len() == 0 {
        s
    } else if s[0] == c {
        Seq::empty()
    } else {
        seq![s[0]] + take_until(s.drop_first(), c)
    }
}

/// `str::split(c)`: the pieces between occurrences of `c` (always at least one).
pub open spec fn split_char(s: Seq<char>, c: char) -> Seq<Seq<char>>
    decreases s.len(),
{
    let head = take_until(s, c);
    if head.len() >= s.len() {
        seq![s]
    } else {
        proof {
            lemma_take_until_prefix(s, c);
        }
        seq![head] + split_char(s.skip((head.len() + 1) as int), c)
    }
}

/// A line without its trailing `'\r'`, as `str::lines` yields it.
pub open spec fn strip_cr(line: Seq<char>) -> Seq<char> {
    if line.len() > 0 && line.last() == '\r' {
        line.drop_last()
    } else {
        line
    }
}

/// `s.lines().next().unwrap_or("")`.
pub open spec fn first_line(s: Seq<char>) -> Seq<char> {
    strip_cr(take_until(s, '\n'))
}

/// The lines of `s` as `str::lines` yields them: split at `'\n'`, a final
/// empty piece dropped, and one trailing `'\r'` removed from each line.
pub open spec fn lines(s: Seq<char>) -> Seq<Seq<char>> {
    let pieces = split_char(s, '\n');
    let kept = if pieces.last().len() == 0 { pieces.drop_last() } else { pieces };
    kept.map_values(|l: Seq<char>| strip_cr(l))
}

/// Unicode `White_Space`, the property `char::is_whitespace` tests.
pub open spec fn is_ws(c: char) -> bool {
    ||| ('\u{9}' <= c && c <= '\u{d}')
    ||| c == ' '
    ||| c == '\u{85}'
    ||| c == '\u{a0}'
    ||| c == '\u{1680}'
    ||| ('\u{2000}' <= c && c <= '\u{200a}')
    ||| c == '\u{2028}'
    ||| c == '\u{2029}'
    ||| c == '\u{202f}'
    ||| c == '\u{205f}'
    ||| c == '\u{3000}'
}

/// `str::trim_start`.
pub open spec fn trim_start(s: Seq<char>) -> Seq<char>
    decreases s.len(),
{
    if s.len() > 0 && is_ws(s[0]) {
        trim_start(s.drop_first())
    } else {
        s
    }
}

/// `str::trim_end`.
pub open spec fn trim_end(s: Seq<char>) -> Seq<char>
    decreases s.len(),
{
    if s.len() > 0 && is_ws(s.last()) {
        trim_end(s.drop_last())
    } else {
        s
    }
}

/// `str::trim`.
pub open spec fn trim(s: Seq<char>) -> Seq<char> {
    trim_end(trim_start(s))
}

pub open spec fn is_ascii_digit(c: char) -> bool {
    '0' <= c && c <= '9'
}

pub open spec fn digit_value(c: char) -> nat {
    (c as int - '0' as int) as nat
}

pub open spec fn digit_char(d: nat) -> char
    recommends
        d < 10,
{
    ((d + '0' as int) as u32) as char
}

/// The decimal digits of `n`, as `u64`'s `Display` writes them.
pub open spec fn decimal(n: nat) -> Seq<char>
    decreases n,
{
    if n < 10 {
        seq![digit_char(n)]
    } else {
        decimal(n / 10) + seq![digit_char(n % 10)]
    }
}

pub open spec fn all_digits(s: Seq<char>) -> bool {
    forall|i: int| 0 <= i < s.len() ==> is_ascii_digit(#[trigger] s[i])
}

/// The number a sequence of decimal digits denotes.
pub open spec fn digits_value(s: Seq<char>) -> nat
    decreases s.len(),
{
    if s.len() == 0 {
        0
    } else {
        digits_value(s.drop_last()) * 10 + digit_value(s.last())
    }
}

/// `s.parse::<u64>()`: an optional `+`, then at least one ASCII digit, with a
/// value that fits in `u64`.
pub open spec fn parse_u64_spec(s: Seq<char>) -> Option<u64> {
    let body = if s.len() > 0 && s[0] == '+' { s.drop_first() } else { s };
    if body.len() > 0 && all_digits(body) && digits_value(body) <= u64::MAX {
        Some(digits_value(body) as u64)
    } else {
        None
    }
}

pub open spec fn ascii_lower_char(c: char) -> char {
    if 'A' <= c && c <= 'Z' {
        ((c as u32) + 32) as char
    } else {
        c
    }
}

/// `str::to_ascii_lowercase`.
pub open spec fn ascii_lower(s: Seq<char>) -> Seq<char> {
    s.map_values(|c: char| ascii_lower_char(c))
}

/// `str::eq_ignore_ascii_case`.
pub open spec fn eq_ignore_ascii_case(a: Seq<char>, b: Seq<char>) -> bool {
    ascii_lower(a) == ascii_lower(b)
}

/// `items` joined with `sep` between them.
pub open spec fn join(items: Seq<Seq<char>>, sep: Seq<char>) -> Seq<char>
    decreases items.len(),
{
    if items.len() == 0 {
        Seq::empty()
    } else if items.len() == 1 {
        items[0]
    } else {
        join(items.drop_last(), sep) + sep + items.last()
    }
}

/// The views of a vector of strings.
pub open spec fn views(v: Seq<String>) -> Seq<Seq<char>> {
    v.map_values(|s: String| s@)
}

// ---------------------------------------------------------------------------
// Lemmas
// ---------------------------------------------------------------------------

pub proof fn lemma_take_until_prefix(s: Seq<char>, c: char)
    ensures
        take_until(s, c).len() <= s.len(),
        take_until(s, c) =~= s.take(take_until(s, c).len() as int),
        take_until(s, c).len() < s.len() ==> s[take_until(s, c).len() as int] == c,
        forall|j: int| 0 <= j < take_until(s, c).len() ==> s[j] != c,
    decreases s.len(),
{
    if s.len() > 0 && s[0] != c {
        let t = s.drop_first();
        lemma_take_until_prefix(t, c);
        assert forall|j: int| 0 <= j < take_until(s, c).len() implies s[j] != c by {
            if j > 0 {
                assert(s[j] == t[j - 1]);
            }
        }
    }
}

pub proof fn lemma_first_match_bounds(s: Seq<char>, pat: Seq<char>)
    ensures
        first_match(s, pat) matches Some(i) ==> 0 <= i && i + pat.len() <= s.len()
            && s.subrange(i, i + pat.len()) =~= pat,
    decreases s.len(),
{
    if pat.is_prefix_of(s) {
    } else if s.len() > 0 {
        lemma_first_match_bounds(s.drop_first(), pat);
        if let Some(k) = first_match(s.drop_first(), pat) {
            assert(s.subrange(k + 1, k + 1 + pat.len()) =~= s.drop_first().subrange(k, k + pat.len()));
        }
    }
}

// ---------------------------------------------------------------------------
// Executable helpers
// ---------------------------------------------------------------------------

/// Copies the characters of a string slice into a vector.
pub fn chars_of(s: &str) -> (res: Vec<char>)
    ensures
        res@ == s@,
{
    let mut res: Vec<char> = Vec::new();
    for c in it: s.chars()
        invariant
            res@ == it.seq().take(it.index() as int),
            it.seq() == s@,
    {
        res.push(c);
    }
    res
}

/// Appends one character to a string (`String::push`).
#[verifier::external_body]
fn string_push(s: &mut String, c: char)
    ensures
        final(s)@ == old(s)@.push(c),
{
    s.push(c);
}

/// Builds a string from characters.
pub fn string_from(v: &Vec<char>) -> (res: String)
    ensures
        res@ == v@,
{
    let mut res = String::new();
    let mut i: usize = 0;
    while i < v.len()
        invariant
            i <= v.len(),
            res@ == v@.take(i as int),
        decreases v.len() - i,
    {
        string_push(&mut res, v[i]);
        i = i + 1;
        assert(res@ =~= v@.take(i as int));
    }
    assert(v@.take(v.len() as int) =~= v@);
    res
}

/// Appends the characters of `other` to `v`.
pub fn append_chars(v: &mut Vec<char>, other: &Vec<char>)
    ensures
        final(v)@ == old(v)@ + other@,
{
    let mut i: usize = 0;
    while i < other.len()
        invariant
            i <= other.len(),
            v@ == old(v)@ + other@.take(i as int),
        decreases other.len() - i,
    {
        v.push(other[i]);
        i = i + 1;
        assert(v@ =~= old(v)@ + other@.take(i as int));
    }
    assert(other@.take(other.len() as int) =~= other@);
}

/// Appends the characters of a string slice to `v`.
pub fn append_str(v: &mut Vec<char>, other: &str)
    ensures
        final(v)@ == old(v)@ + other@,
{
    let o = chars_of(other);
    append_chars(v, &o);
}

/// A copy of `s[from..to]`.
pub fn slice(s: &Vec<char>, from: usize, to: usize) -> (res: Vec<char>)
    requires
        from <= to <= s.len(),
    ensures
        res@ == s@.subrange(from as int, to as int),
{
    let mut res: Vec<char> = Vec::new();
    let mut i = from;
    while i < to
        invariant
            from <= i <= to <= s.len(),
            res@ == s@.subrange(from as int, i as int),
        decreases to - i,
    {
        res.push(s[i]);
        i = i + 1;
        assert(res@ =~= s@.subrange(from as int, i as int));
    }
    res
}

/// Whether `pat` occurs in `s` at position `i`.
pub fn matches_at(s: &Vec<char>, pat: &Vec<char>, i: usize) -> (res: bool)
    requires
        i <= s.len(),
    ensures
        res == pat@.is_prefix_of(s@.skip(i as int)),
{
    if pat.len() > s.len() - i {
        return false;
    }
    let mut k: usize = 0;
    while k < pat.len()
        invariant
            k <= pat.len(),
            i + pat.len() <= s.len(),
            forall|j: int| 0 <= j < k ==> s@[i + j] == pat@[j],
        decreases pat.len() - k,
    {
        if s[i + k] != pat[k] {
            assert(s@.skip(i as int)[k as int] != pat@[k as int]);
            return false;
        }
        k = k + 1;
    }
    assert(s@.skip(i as int).take(pat.len() as int) =~= pat@);
    true
}

/// `s.starts_with(pat)`.
pub fn starts_with(s: &Vec<char>, pat: &Vec<char>) -> (res: bool)
    ensures
        res == pat@.is_prefix_of(s@),
{
    assert(s@.skip(0) =~= s@);
    matches_at(s, pat, 0)
}

/// `s.ends_with(pat)`.
pub fn ends_with(s: &Vec<char>, pat: &Vec<char>) -> (res: bool)
    ensures
        res == pat@.is_suffix_of(s@),
{
    if pat.len() > s.len() {
        return false;
    }
    let start = s.len() - pat.len();
    let r = matches_at(s, pat, start);
    assert(s@.skip(start as int).take(pat.len() as int) =~= s@.subrange(start as int, s.len() as int));
    assert(s@.skip(start as int) =~= s@.subrange(start as int, s.len() as int));
    r
}

proof fn lemma_first_match_from(s: Seq<char>, pat: Seq<char>, i: int)
    requires
        0 <= i <= s.len(),
        forall|j: int| 0 <= j < i ==> !pat.is_prefix_of(#[trigger] s.skip(j)),
    ensures
        first_match(s, pat) == (match first_match(s.skip(i), pat) {
            Some(k) => Some(k + i),
            None => None::<int>,
        }),
    decreases i,
{
    if i > 0 {
        assert(s.skip(0) =~= s);
        assert(!pat.is_prefix_of(s));
        assert forall|j: int| 0 <= j < i - 1 implies !pat.is_prefix_of(#[trigger] s.drop_first().skip(j)) by {
            assert(s.drop_first().skip(j) =~= s.skip(j + 1));
        }
        lemma_first_match_from(s.drop_first(), pat, i - 1);
        assert(s.drop_first().skip(i - 1) =~= s.skip(i));
    } else {
        assert(s.skip(0) =~= s);
    }
}

/// `s.find(pat)`: the index of the first occurrence of `pat`.
pub fn find(s: &Vec<char>, pat: &Vec<char>) -> (res: Option<usize>)
    ensures
        match res {
            Some(i) => first_match(s@, pat@) == Some(i as int),
            None => first_match(s@, pat@) is None,
        },
{
    let mut i: usize = 0;
    loop
        invariant
            i <= s.len(),
            forall|j: int| 0 <= j < i ==> !pat@.is_prefix_of(#[trigger] s@.skip(j)),
        decreases s.len() - i,
    {
        if matches_at(s, pat, i) {
            proof {
                lemma_first_match_from(s@, pat@, i as int);
            }
            return Some(i);
        }
        if i == s.len() {
            proof {
                lemma_first_match_from(s@, pat@, s.len() as int);
                assert(s@.skip(s.len() as int) =~= Seq::<char>::empty());
            }
            return None;
        }
        i = i + 1;
    }
}

/// `s.contains(pat)`.
pub fn contains(s: &Vec<char>, pat: &Vec<char>) -> (res: bool)
    ensures
        res == contains_seq(s@, pat@),
{
    find(s, pat).is_some()
}

/// `s.split_once(pat)`.
pub fn split_once_chars(s: &Vec<char>, pat: &Vec<char>) -> (res: Option<(Vec<char>, Vec<char>)>)
    ensures
        match res {
            Some((a, b)) => split_once(s@, pat@) == Some((a@, b@)),
            None => split_once(s@, pat@) is None,
        },
{
    let found = find(s, pat);
    proof {
        lemma_first_match_bounds(s@, pat@);
    }
    match found {
        Some(i) => {
            let plen = pat.len();
            let slen = s.len();
            assert(i + plen <= slen);
            let end: usize = i + plen;
            let a = slice(s, 0, i);
            let b = slice(s, end, s.len());
            assert(a@ =~= s@.take(i as int));
            assert(b@ =~= s@.skip(i + pat@.len()));
            Some((a, b))
        },
        None => None,
    }
}

proof fn lemma_replace_step(s: Seq<char>, from: Seq<char>, to: Seq<char>, i: int)
    requires
        from.len() > 0,
        0 <= i < s.len(),
    ensures
        from.is_prefix_of(s.skip(i)) ==> replace_all(s.skip(i), from, to) == to + replace_all(
            s.skip(i + from.len()),
            from,
            to,
        ),
        !from.is_prefix_of(s.skip(i)) ==> replace_all(s.skip(i), from, to) == seq![s[i]]
            + replace_all(s.skip(i + 1), from, to),
{
    let t = s.skip(i);
    if from.is_prefix_of(t) {
        assert(t.skip(from.len() as int) =~= s.skip(i + from.len()));
    } else {
        assert(t.drop_first() =~= s.skip(i + 1));
    }
}

/// `s.replace(from, to)` for a non-empty `from`.
pub fn replace(s: &Vec<char>, from: &Vec<char>, to: &Vec<char>) -> (res: Vec<char>)
    requires
        from@.len() > 0,
    ensures
        res@ == replace_all(s@, from@, to@),
{
    let mut res: Vec<char> = Vec::new();
    let mut i: usize = 0;
    assert(s@.skip(0) =~= s@);
    while i < s.len()
        invariant
            i <= s.len(),
            from@.len() > 0,
            res@ + replace_all(s@.skip(i as int), from@, to@) == replace_all(s@, from@, to@),
        decreases s.len() - i,
    {
        proof {
            lemma_replace_step(s@, from@, to@, i as int);
        }
        if matches_at(s, from, i) {
            let ghost old_res = res@;
            append_chars(&mut res, to);
            assert(res@ + replace_all(s@.skip(i + from@.len()), from@, to@) =~= old_res + (to@
                + replace_all(s@.skip(i + from@.len()), from@, to@)));
            proof {
                lemma_prefix_len(s@.skip(i as int), from@);
            }
            i = i + from.len();
        } else {
            let ghost old_res = res@;
            res.push(s[i]);
            assert(res@ + replace_all(s@.skip(i + 1), from@, to@) =~= old_res + (seq![s@[i as int]]
                + replace_all(s@.skip(i + 1), from@, to@)));
            i = i + 1;
        }
    }
    assert(s@.skip(i as int) =~= Seq::<char>::empty());
    assert(res@ + Seq::<char>::empty() =~= res@);
    res
}

proof fn lemma_prefix_len(s: Seq<char>, p: Seq<char>)
    requires
        p.is_prefix_of(s),
    ensures
        p.len() <= s.len(),
{
}

/// `s.replace(from, to)` on string slices, for a non-empty `from`.
pub fn replace_str(s: &str, from: &str, to: &str) -> (res: Vec<char>)
    requires
        from@.len() > 0,
    ensures
        res@ == replace_all(s@, from@, to@),
{
    let sv = chars_of(s);
    let fv = chars_of(from);
    let tv = chars_of(to);
    replace(&sv, &fv, &tv)
}

/// The characters up to the first `c`.
pub fn take_until_char(s: &Vec<char>, c: char) -> (res: Vec<char>)
    ensures
        res@ == take_until(s@, c),
{
    proof {
        lemma_take_until_prefix(s@, c);
    }
    let mut i: usize = 0;
    while i < s.len() && s[i] != c
        invariant
            i <= s.len(),
            forall|j: int| 0 <= j < i ==> s@[j] != c,
        decreases s.len() - i,
    {
        i = i + 1;
    }
    proof {
        lemma_take_until_index(s@, c, i as int);
    }
    slice(s, 0, i)
}

proof fn lemma_take_until_index(s: Seq<char>, c: char, i: int)
    requires
        0 <= i <= s.len(),
        forall|j: int| 0 <= j < i ==> s[j] != c,
        i == s.len() || s[i] == c,
    ensures
        take_until(s, c) =~= s.take(i),
    decreases s.len(),
{
    if s.len() > 0 && s[0] != c {
        assert forall|j: int| 0 <= j < i - 1 implies s.drop_first()[j] != c by {
            assert(s.drop_first()[j] == s[j + 1]);
        }
        lemma_take_until_index(s.drop_first(), c, i - 1);
        assert(seq![s[0]] + s.drop_first().take(i - 1) =~= s.take(i));
    }
}

/// `s.lines().next().unwrap_or("")`.
pub fn first_line_chars(s: &Vec<char>) -> (res: Vec<char>)
    ensures
        res@ == first_line(s@),
{
    let mut line = take_until_char(s, '\n');
    if line.len() > 0 && line[line.len() - 1] == '\r' {
        line.pop();
        assert(line@ =~= take_until(s@, '\n').drop_last());
    }
    line
}

pub open spec fn is_ws_exec_spec(c: char) -> bool {
    is_ws(c)
}

/// `char::is_whitespace`.
pub fn is_whitespace(c: char) -> (res: bool)
    ensures
        res == is_ws(c),
{
    ('\u{9}' <= c && c <= '\u{d}') || c == ' ' || c == '\u{85}' || c == '\u{a0}' || c
        == '\u{1680}' || ('\u{2000}' <= c && c <= '\u{200a}') || c == '\u{2028}' || c == '\u{2029}'
        || c == '\u{202f}' || c == '\u{205f}' || c == '\u{3000}'
}

proof fn lemma_trim_start_len(s: Seq<char>)
    ensures
        trim_start(s).len() <= s.len(),
    decreases s.len(),
{
    if s.len() > 0 && is_ws(s[0]) {
        lemma_trim_start_len(s.drop_first());
    }
}

proof fn lemma_trim_end_len(s: Seq<char>)
    ensures
        trim_end(s).len() <= s.len(),
    decreases s.len(),
{
    if s.len() > 0 && is_ws(s.last()) {
        lemma_trim_end_len(s.drop_last());
    }
}

/// A trimmed text followed by a text that neither starts nor ends with
/// whitespace is trimmed too.
pub proof fn lemma_trim_append(u: Seq<char>, t: Seq<char>)
    requires
        trim(u) == u,
        t.len() > 0,
        !is_ws(t[0]),
        !is_ws(t.last()),
    ensures
        trim(u + t) == u + t,
{
    let ut = u + t;
    if u.len() > 0 && is_ws(u[0]) {
        lemma_trim_start_len(u.drop_first());
        lemma_trim_end_len(trim_start(u));
        assert(false);
    }
    assert(ut.len() > 0 && !is_ws(ut[0]));
    assert(trim_start(ut) == ut);
    assert(ut.last() == t.last());
    assert(trim_end(ut) == ut);
}

proof fn lemma_trim_start_skip(s: Seq<char>, i: int)
    requires
        0 <= i <= s.len(),
        forall|j: int| 0 <= j < i ==> is_ws(#[trigger] s[j]),
    ensures
        trim_start(s) == trim_start(s.skip(i)),
    decreases i,
{
    if i > 0 {
        assert forall|j: int| 0 <= j < i - 1 implies is_ws(#[trigger] s.drop_first()[j]) by {
            assert(s.drop_first()[j] == s[j + 1]);
        }
        lemma_trim_start_skip(s.drop_first(), i - 1);
        assert(s.drop_first().skip(i - 1) =~= s.skip(i));
    } else {
        assert(s.skip(0) =~= s);
    }
}

proof fn lemma_trim_end_take(s: Seq<char>, i: int)
    requires
        0 <= i <= s.len(),
        forall|j: int| i <= j < s.len() ==> is_ws(#[trigger] s[j]),
    ensures
        trim_end(s) == trim_end(s.take(i)),
    decreases s.len() - i,
{
    if i < s.len() {
        assert forall|j: int| i <= j < s.drop_last().len() implies is_ws(#[trigger] s.drop_last()[j]) by {
            assert(s.drop_last()[j] == s[j]);
        }
        lemma_trim_end_take(s.drop_last(), i);
        assert(s.drop_last().take(i) =~= s.take(i));
    } else {
        assert(s.take(i) =~= s);
    }
}

/// `s.trim()`.
pub fn trim_chars(s: &Vec<char>) -> (res: Vec<char>)
    ensures
        res@ == trim(s@),
{
    let mut start: usize = 0;
    while start < s.len() && is_whitespace(s[start])
        invariant
            start <= s.len(),
            forall|j: int| 0 <= j < start ==> is_ws(#[trigger] s@[j]),
        decreases s.len() - start,
    {
        start = start + 1;
    }
    proof {
        lemma_trim_start_skip(s@, start as int);
        assert(start < s.len() ==> !is_ws(s@.skip(start as int)[0]));
    }
    let mut end: usize = s.len();
    while end > start && is_whitespace(s[end - 1])
        invariant
            start <= end <= s.len(),
            forall|j: int| end <= j < s.len() ==> is_ws(#[trigger] s@[j]),
        decreases end,
    {
        end = end - 1;
    }
    let ghost t = s@.skip(start as int);
    proof {
        assert(trim_start(t) == t);
        assert forall|j: int| (end - start) <= j < t.len() implies is_ws(#[trigger] t[j]) by {
            assert(t[j] == s@[j + start]);
        }
        lemma_trim_end_take(t, (end - start) as int);
        let u = t.take((end - start) as int);
        if u.len() > 0 {
            assert(u.last() == s@[end - 1]);
        }
        assert(trim_end(u) == u);
        assert(u =~= s@.subrange(start as int, end as int));
    }
    slice(s, start, end)
}

/// `s.trim()` on a string slice.
pub fn trim_str(s: &str) -> (res: Vec<char>)
    ensures
        res@ == trim(s@),
{
    let v = chars_of(s);
    trim_chars(&v)
}

pub open spec fn is_ascii_digit_exec_spec(c: char) -> bool {
    is_ascii_digit(c)
}

/// `char::is_ascii_digit`.
pub fn char_is_ascii_digit(c: char) -> (res: bool)
    ensures
        res == is_ascii_digit(c),
{
    '0' <= c && c <= '9'
}

/// `s.to_ascii_lowercase()`.
pub fn ascii_lowercase(s: &Vec<char>) -> (res: Vec<char>)
    ensures
        res@ == ascii_lower(s@),
{
    let mut res: Vec<char> = Vec::new();
    let mut i: usize = 0;
    while i < s.len()
        invariant
            i <= s.len(),
            res@ == ascii_lower(s@.take(i as int)),
        decreases s.len() - i,
    {
        let c = s[i];
        let l = if 'A' <= c && c <= 'Z' {
            let code = (c as u32) + 32;
            assert(code <= 0x7f);
            char_from_ascii(code)
        } else {
            c
        };
        res.push(l);
        i = i + 1;
        assert(res@ =~= ascii_lower(s@.take(i as int)));
    }
    assert(s@.take(s.len() as int) =~= s@);
    res
}

/// The character of an ASCII code point.
fn char_from_ascii(code: u32) -> (c: char)
    requires
        code <= 0x7f,
    ensures
        c == code as char,
{
    let b = code as u8;
    b as char
}

/// `a.eq_ignore_ascii_case(b)`.
pub fn eq_ignore_case(a: &Vec<char>, b: &Vec<char>) -> (res: bool)
    ensures
        res == eq_ignore_ascii_case(a@, b@),
{
    let la = ascii_lowercase(a);
    let lb = ascii_lowercase(b);
    let r = chars_eq(&la, &lb);
    r
}

/// Character-wise equality of two character vectors.
pub fn chars_eq(a: &Vec<char>, b: &Vec<char>) -> (res: bool)
    ensures
        res == (a@ == b@),
{
    if a.len() != b.len() {
        return false;
    }
    let mut i: usize = 0;
    while i < a.len()
        invariant
            i <= a.len() == b.len(),
            forall|j: int| 0 <= j < i ==> a@[j] == b@[j],
        decreases a.len() - i,
    {
        if a[i] != b[i] {
            return false;
        }
        i = i + 1;
    }
    assert(a@ =~= b@);
    true
}

/// Equality of two strings by their characters.
pub fn str_eq(a: &str, b: &str) -> (res: bool)
    ensures
        res == (a@ == b@),
{
    let av = chars_of(a);
    let bv = chars_of(b);
    chars_eq(&av, &bv)
}

proof fn lemma_digit_char_is_digit(d: nat)
    requires
        d < 10,
    ensures
        is_ascii_digit(digit_char(d)),
        digit_value(digit_char(d)) == d,
{
}

pub proof fn lemma_decimal_digits(n: nat)
    ensures
        all_digits(decimal(n)),
        decimal(n).len() >= 1,
        digits_value(decimal(n)) == n,
        decimal(n)[0] != '0' || n == 0,
    decreases n,
{
    if n < 10 {
        lemma_digit_char_is_digit(n);
        assert(decimal(n).drop_last() =~= Seq::<char>::empty());
        assert(digits_value(Seq::<char>::empty()) == 0);
    } else {
        lemma_decimal_digits(n / 10);
        lemma_digit_char_is_digit(n % 10);
        let s = decimal(n);
        assert(s.drop_last() =~= decimal(n / 10));
        assert(s[0] == decimal(n / 10)[0]);
        assert(s.last() == digit_char(n % 10));
        assert(digits_value(s) == digits_value(s.drop_last()) * 10 + digit_value(s.last()));
        assert((n / 10) * 10 + n % 10 == n) by (nonlinear_arith);
    }
}

/// Appends the decimal digits of `n` to `v`.
pub fn push_decimal(v: &mut Vec<char>, n: u64)
    ensures
        final(v)@ == old(v)@ + decimal(n as nat),
    decreases n,
{
    if n >= 10 {
        push_decimal(v, n / 10);
    }
    let d = (n % 10) as u32;
    let c = char_from_ascii(d + 48);
    v.push(c);
    assert(c == digit_char((n % 10) as nat));
    if n >= 10 {
        assert(final_helper(old(v)@, decimal((n / 10) as nat), c) =~= old(v)@ + decimal(n as nat));
    } else {
        assert(old(v)@.push(c) =~= old(v)@ + decimal(n as nat));
    }
}

spec fn final_helper(a: Seq<char>, b: Seq<char>, c: char) -> Seq<char> {
    (a + b).push(c)
}

/// `n.to_string()` for a `u64`.
pub fn u64_to_string(n: u64) -> (res: String)
    ensures
        res@ == decimal(n as nat),
{
    let mut v: Vec<char> = Vec::new();
    push_decimal(&mut v, n);
    assert(v@ =~= decimal(n as nat));
    string_from(&v)
}

/// An owned copy of a string slice.
pub fn owned_string(s: &str) -> (res: String)
    ensures
        res@ == s@,
{
    let c = chars_of(s);
    string_from(&c)
}

/// `s.parse::<u64>()` on a character vector.
pub fn parse_u64(s: &Vec<char>) -> (res: Option<u64>)
    ensures
        res == parse_u64_spec(s@),
{
    let start: usize = if s.len() > 0 && s[0] == '+' { 1 } else { 0 };
    let ghost body = s@.skip(start as int);
    proof {
        assert(s.len() > 0 && s@[0] == '+' ==> body =~= s@.drop_first());
        assert(!(s.len() > 0 && s@[0] == '+') ==> body =~= s@);
    }
    if start >= s.len() {
        return None;
    }
    let mut acc: u64 = 0;
    let mut i: usize = start;
    while i < s.len()
        invariant
            start <= i <= s.len(),
            body == s@.skip(start as int),
            start < s.len(),
            s.len() > 0 && s@[0] == '+' ==> body == s@.drop_first(),
            !(s.len() > 0 && s@[0] == '+') ==> body == s@,
            all_digits(s@.subrange(start as int, i as int)),
            acc as nat == digits_value(s@.subrange(start as int, i as int)),
        decreases s.len() - i,
    {
        let c = s[i];
        let ghost prefix = s@.subrange(start as int, (i + 1) as int);
        proof {
            assert(prefix.drop_last() =~= s@.subrange(start as int, i as int));
            assert(prefix.last() == c);
        }
        if !char_is_ascii_digit(c) {
            assert(!all_digits(body)) by {
                assert(body[i - start] == c);
            }
            return None;
        }
        let d = ((c as u32) - 48) as u64;
        assert(d as nat == digit_value(c));
        if acc > (u64::MAX - d) / 10 {
            proof {
                assert(body.take((i + 1 - start) as int) =~= prefix);
                if all_digits(body) {
                    lemma_digits_value_monotone(body, (i + 1 - start) as int);
                }
                assert(digits_value(prefix) == acc * 10 + d);
                assert(acc * 10 + d > u64::MAX) by (nonlinear_arith)
                    requires
                        acc > (u64::MAX - d) / 10,
                        d <= 9,
                ;
            }
            return None;
        }
        assert(acc * 10 + d <= u64::MAX) by (nonlinear_arith)
            requires
                acc <= (u64::MAX - d) / 10,
                d <= 9,
        ;
        acc = acc * 10 + d;
        i = i + 1;
        assert(all_digits(prefix)) by {
            assert forall|j: int| 0 <= j < prefix.len() implies is_ascii_digit(#[trigger] prefix[j]) by {
                if j < prefix.len() - 1 {
                    assert(prefix[j] == s@.subrange(start as int, (i - 1) as int)[j]);
                }
            }
        }
    }
    assert(s@.subrange(start as int, s.len() as int) =~= body);
    Some(acc)
}

/// `str::rfind(c)`: the index of the last `c` in `s`.
pub open spec fn rfind_char(s: Seq<char>, c: char) -> Option<int>
    decreases s.len(),
{
    if s.len() == 0 {
        None
    } else if s.last() == c {
        Some(s.len() - 1)
    } else {
        rfind_char(s.drop_last(), c)
    }
}

pub proof fn lemma_rfind_char(s: Seq<char>, c: char)
    ensures
        rfind_char(s, c) matches Some(i) ==> 0 <= i < s.len() && s[i] == c && forall|j: int|
            i < j < s.len() ==> s[j] != c,
        rfind_char(s, c) is None ==> forall|j: int| 0 <= j < s.len() ==> s[j] != c,
    decreases s.len(),
{
    if s.len() > 0 && s.last() != c {
        let t = s.drop_last();
        lemma_rfind_char(t, c);
        match rfind_char(t, c) {
            Some(i) => {
                assert forall|j: int| i < j < s.len() implies s[j] != c by {
                    if j < t.len() {
                        assert(s[j] == t[j]);
                    }
                }
            },
            None => {
                assert forall|j: int| 0 <= j < s.len() implies s[j] != c by {
                    if j < t.len() {
                        assert(s[j] == t[j]);
                    }
                }
            },
        }
    }
}

/// The index of the last `c` in `s`.
pub fn rfind(s: &Vec<char>, c: char) -> (res: Option<usize>)
    ensures
        match res {
            Some(i) => rfind_char(s@, c) == Some(i as int),
            None => rfind_char(s@, c) is None,
        },
{
    proof {
        lemma_rfind_char(s@, c);
    }
    let mut i: usize = s.len();
    assert(s@.take(i as int) =~= s@);
    while i > 0
        invariant
            i <= s.len(),
            forall|j: int| i <= j < s.len() ==> s@[j] != c,
            rfind_char(s@, c) == rfind_char(s@.take(i as int), c),
        decreases i,
    {
        let ghost t = s@.take(i as int);
        if s[i - 1] == c {
            assert(t.last() == c);
            return Some(i - 1);
        }
        assert(t.drop_last() =~= s@.take(i - 1));
        i = i - 1;
    }
    assert(s@.take(0) =~= Seq::<char>::empty());
    None
}

/// Splitting `a + c + b` at `c`, where `b` holds no `c`, splits `a` and adds
/// `b` as the last piece.
pub proof fn lemma_split_char_append(a: Seq<char>, c: char, b: Seq<char>)
    requires
        forall|j: int| 0 <= j < b.len() ==> b[j] != c,
    ensures
        split_char(a + seq![c] + b, c) == split_char(a, c) + seq![b],
    decreases a.len(),
{
    let s = a + seq![c] + b;
    lemma_take_until_prefix(a, c);
    lemma_take_until_prefix(b, c);
    let h = take_until(a, c);
    assert(take_until(b, c).len() >= b.len()) by {
        if take_until(b, c).len() < b.len() {
            assert(b[take_until(b, c).len() as int] == c);
        }
    }
    assert(split_char(b, c) == seq![b]);
    if h.len() < a.len() {
        assert forall|j: int| 0 <= j < h.len() implies s[j] != c by {
            assert(s[j] == a[j]);
        }
        assert(s[h.len() as int] == a[h.len() as int]);
        lemma_take_until_index(s, c, h.len() as int);
        assert(s.take(h.len() as int) =~= h);
        let rest = a.skip((h.len() + 1) as int);
        assert(s.skip((h.len() + 1) as int) =~= rest + seq![c] + b);
        lemma_split_char_append(rest, c, b);
        assert(split_char(a, c) == seq![h] + split_char(rest, c));
        assert(split_char(s, c) == seq![h] + split_char(rest + seq![c] + b, c));
        assert(seq![h] + (split_char(rest, c) + seq![b]) =~= seq![h] + split_char(rest, c) + seq![b]);
    } else {
        assert forall|j: int| 0 <= j < a.len() implies s[j] != c by {
            assert(s[j] == a[j]);
        }
        assert(s[a.len() as int] == c);
        lemma_take_until_index(s, c, a.len() as int);
        assert(s.take(a.len() as int) =~= a);
        assert(s.skip((a.len() + 1) as int) =~= b);
        assert(split_char(a, c) == seq![a]);
    }
}

pub proof fn lemma_split_char_nonempty(s: Seq<char>, c: char)
    ensures
        split_char(s, c).len() > 0,
    decreases s.len(),
{
    lemma_take_until_prefix(s, c);
    let head = take_until(s, c);
    if head.len() < s.len() {
        lemma_split_char_nonempty(s.skip((head.len() + 1) as int), c);
    }
}

pub proof fn lemma_take_until_first(t: Seq<char>, c: char, k: int)
    requires
        0 <= k < t.len(),
        t[k] == c,
        forall|j: int| 0 <= j < k ==> t[j] != c,
    ensures
        take_until(t, c) == t.take(k),
    decreases k,
{
    if k > 0 {
        lemma_take_until_first(t.drop_first(), c, k - 1);
        assert(seq![t[0]] + t.drop_first().take(k - 1) =~= t.take(k));
    } else {
        assert(t.take(0) =~= Seq::<char>::empty());
    }
}

pub proof fn lemma_take_until_none(t: Seq<char>, c: char)
    requires
        forall|j: int| 0 <= j < t.len() ==> t[j] != c,
    ensures
        take_until(t, c) == t,
    decreases t.len(),
{
    if t.len() > 0 {
        lemma_take_until_none(t.drop_first(), c);
        assert(seq![t[0]] + t.drop_first() =~= t);
    }
}

/// `str::split(c)` on a character vector.
pub fn split_chars(s: &Vec<char>, c: char) -> (res: Vec<Vec<char>>)
    ensures
        res@.map_values(|p: Vec<char>| p@) == split_char(s@, c),
{
    let mut pieces: Vec<Vec<char>> = Vec::new();
    let mut start: usize = 0;
    let mut i: usize = 0;
    assert(s@.skip(0) =~= s@);
    assert(pieces@.map_values(|p: Vec<char>| p@) =~= Seq::<Seq<char>>::empty());
    while i < s.len()
        invariant
            start <= i <= s.len(),
            forall|j: int| start <= j < i ==> s@[j] != c,
            split_char(s@, c) == pieces@.map_values(|p: Vec<char>| p@) + split_char(
                s@.skip(start as int),
                c,
            ),
        decreases s.len() - i,
    {
        if s[i] == c {
            let piece = slice(s, start, i);
            let ghost t = s@.skip(start as int);
            proof {
                assert forall|j: int| 0 <= j < (i - start) implies t[j] != c by {
                    assert(t[j] == s@[start + j]);
                }
                lemma_take_until_first(t, c, (i - start) as int);
                assert(t.take((i - start) as int) =~= piece@);
                assert(t.skip((i - start + 1) as int) =~= s@.skip(i + 1));
                assert(split_char(t, c) == seq![piece@] + split_char(s@.skip(i + 1), c));
            }
            let ghost before = pieces@;
            pieces.push(piece);
            assert(pieces@.map_values(|p: Vec<char>| p@) =~= before.map_values(|p: Vec<char>| p@).push(
                piece@,
            ));
            start = i + 1;
        }
        i = i + 1;
    }
    let last = slice(s, start, s.len());
    proof {
        let t = s@.skip(start as int);
        assert forall|j: int| 0 <= j < t.len() implies t[j] != c by {
            assert(t[j] == s@[start + j]);
        }
        lemma_take_until_none(t, c);
        assert(t =~= last@);
        assert(split_char(t, c) == seq![last@]);
    }
    let ghost before = pieces@;
    pieces.push(last);
    assert(pieces@.map_values(|p: Vec<char>| p@) =~= before.map_values(|p: Vec<char>| p@).push(
        last@,
    ));
    pieces
}

/// Whether `c` occurs in `s`.
pub fn contains_char(s: &Vec<char>, c: char) -> (res: bool)
    ensures
        res == s@.contains(c),
{
    let mut k: usize = 0;
    while k < s.len()
        invariant
            k <= s.len(),
            forall|j: int| 0 <= j < k ==> s@[j] != c,
        decreases s.len() - k,
    {
        if s[k] == c {
            assert(s@[k as int] == c);
            return true;
        }
        k = k + 1;
    }
    false
}

proof fn lemma_digits_value_monotone(s: Seq<char>, k: int)
    requires
        0 <= k <= s.len(),
        all_digits(s),
    ensures
        digits_value(s.take(k)) <= digits_value(s),
    decreases s.len(),
{
    if k < s.len() {
        lemma_digits_value_monotone(s.drop_last(), k);
        assert(s.drop_last().take(k) =~= s.take(k));
        assert(all_digits(s.drop_last()));
    } else {
        assert(s.take(k) =~= s);
    }
}

/// Replacing a pattern that does not occur changes nothing.
pub proof fn lemma_replace_absent(s: Seq<char>, from: Seq<char>, to: Seq<char>)
    requires
        first_match(s, from) is None,
    ensures
        replace_all(s, from, to) == s,
    decreases s.len(),
{
    if from.len() > 0 && s.len() > 0 {
        lemma_replace_absent(s.drop_first(), from, to);
        assert(seq![s[0]] + s.drop_first() =~= s);
    }
}

/// Replacing splits at the first occurrence of the pattern.
pub proof fn lemma_replace_first(s: Seq<char>, from: Seq<char>, to: Seq<char>, i: int)
    requires
        from.len() > 0,
        first_match(s, from) == Some(i),
    ensures
        replace_all(s, from, to) == s.take(i) + to + replace_all(s.skip(i + from.len()), from, to),
    decreases s.len(),
{
    lemma_first_match_bounds(s, from);
    if i == 0 {
        assert(s.take(0) =~= Seq::<char>::empty());
        assert(from.is_prefix_of(s));
        assert(s.skip(from.len() as int) =~= s.skip(i + from.len()));
    } else {
        assert(!from.is_prefix_of(s));
        assert(s.len() > 0);
        let t = s.drop_first();
        assert(first_match(t, from) == Some(i - 1));
        lemma_replace_first(t, from, to, i - 1);
        assert(t.skip(i - 1 + from.len()) =~= s.skip(i + from.len()));
        assert(seq![s[0]] + t.take(i - 1) =~= s.take(i));
    }
}

} // verus!

