//! Verified text primitives shared by the parser, the serializer and the
//! planners: whitespace trimming, prefix tests, substring search, splitting,
//! lexicographic comparison and decimal rendering.

use vstd::prelude::*;

verus! {

/// The whitespace characters that [`trim`] removes from both ends of a line.
pub open spec fn is_space_char(c: char) -> bool {
    c == ' ' || c == '\t' || c == '\r' || c == '\u{b}' || c == '\u{c}'
}

/// `s` without its leading whitespace.
pub open spec fn drop_leading_spaces(s: Seq<char>) -> Seq<char>
    decreases s.len(),
{
    if s.len() > 0 && is_space_char(s[0]) {
        drop_leading_spaces(s.drop_first())
    } else {
        s
    }
}

/// `s` without its trailing whitespace.
pub open spec fn drop_trailing_spaces(s: Seq<char>) -> Seq<char>
    decreases s.len(),
{
    if s.len() > 0 && is_space_char(s[s.len() - 1]) {
        drop_trailing_spaces(s.drop_last())
    } else {
        s
    }
}

/// `s` without leading and trailing whitespace.
pub open spec fn trim_spec(s: Seq<char>) -> Seq<char> {
    drop_trailing_spaces(drop_leading_spaces(s))
}

/// `p` is a prefix of `s`.
pub open spec fn starts_with_spec(s: Seq<char>, p: Seq<char>) -> bool {
    p.len() <= s.len() && s.subrange(0, p.len() as int) == p
}

/// The pattern `pat` occurs in `s` at position `i`.
pub open spec fn matches_at(s: Seq<char>, pat: Seq<char>, i: int) -> bool {
    0 <= i && i + pat.len() <= s.len() && s.subrange(i, i + pat.len()) == pat
}

/// The first position `>= i` where `pat` occurs in `s`, if any.
pub open spec fn find_from(s: Seq<char>, pat: Seq<char>, i: int) -> Option<int>
    decreases s.len() + 1 - i,
{
    if i < 0 || i + pat.len() > s.len() {
        None
    } else if matches_at(s, pat, i) {
        Some(i)
    } else {
        find_from(s, pat, i + 1)
    }
}

/// What a `Some` answer of [`find_from`] means: a match at the answer and
/// none before it.
pub proof fn lemma_find_from_some(s: Seq<char>, pat: Seq<char>, i: int)
    requires
        find_from(s, pat, i) is Some,
    ensures
        ({
            let j = find_from(s, pat, i)->Some_0;
            &&& i <= j
            &&& matches_at(s, pat, j)
            &&& forall|k: int| i <= k < j ==> !matches_at(s, pat, k)
        }),
    decreases s.len() + 1 - i,
{
    if !(i < 0 || i + pat.len() > s.len()) && !matches_at(s, pat, i) {
        lemma_find_from_some(s, pat, i + 1);
    }
}

/// `s` split at the first occurrence of `pat`, the pattern removed.
pub open spec fn split_once_spec(s: Seq<char>, pat: Seq<char>) -> Option<(Seq<char>, Seq<char>)> {
    match find_from(s, pat, 0) {
        Some(i) => Some((s.subrange(0, i), s.subrange(i + pat.len(), s.len() as int))),
        None => None,
    }
}

/// `s` split on every `'\n'`; joining the pieces with `'\n'` gives `s` back.
pub open spec fn lines_spec(s: Seq<char>) -> Seq<Seq<char>>
    decreases s.len(),
{
    match find_from(s, seq!['\n'], 0) {
        Some(i) => if 0 <= i && i < s.len() {
            seq![s.subrange(0, i)] + lines_spec(s.subrange(i + 1, s.len() as int))
        } else {
            seq![s]
        },
        None => seq![s],
    }
}

/// Strict lexicographic order on character sequences, by code point.
pub open spec fn lex_lt(a: Seq<char>, b: Seq<char>) -> bool
    decreases a.len(),
{
    if b.len() == 0 {
        false
    } else if a.len() == 0 {
        true
    } else if (a[0] as int) < (b[0] as int) {
        true
    } else if (a[0] as int) > (b[0] as int) {
        false
    } else {
        lex_lt(a.drop_first(), b.drop_first())
    }
}

/// Non-strict lexicographic order.
pub open spec fn lex_le(a: Seq<char>, b: Seq<char>) -> bool {
    lex_lt(a, b) || a == b
}

proof fn lemma_drop_leading_spaces_subrange(s: Seq<char>, k: int)
    requires
        0 <= k <= s.len(),
        forall|j: int| 0 <= j < k ==> is_space_char(s[j]),
        k == s.len() || !is_space_char(s[k]),
    ensures
        drop_leading_spaces(s) == s.subrange(k, s.len() as int),
    decreases k,
{
    if k == 0 {
        assert(s.subrange(0, s.len() as int) =~= s);
    } else {
        let t = s.drop_first();
        assert(t =~= s.subrange(1, s.len() as int));
        assert(forall|j: int| 0 <= j < k - 1 ==> is_space_char(#[trigger] t[j]));
        lemma_drop_leading_spaces_subrange(t, k - 1);
        assert(t.subrange(k - 1, t.len() as int) =~= s.subrange(k, s.len() as int));
    }
}

proof fn lemma_drop_trailing_spaces_subrange(s: Seq<char>, k: int)
    requires
        0 <= k <= s.len(),
        forall|j: int| k <= j < s.len() ==> is_space_char(s[j]),
        k == 0 || !is_space_char(s[k - 1]),
    ensures
        drop_trailing_spaces(s) == s.subrange(0, k),
    decreases s.len() - k,
{
    if k == s.len() {
        assert(s.subrange(0, s.len() as int) =~= s);
    } else {
        let t = s.drop_last();
        assert(t =~= s.subrange(0, s.len() - 1));
        lemma_drop_trailing_spaces_subrange(t, k);
        assert(t.subrange(0, k) =~= s.subrange(0, k));
    }
}

/// Whether `c` is one of the whitespace characters of [`is_space_char`].
pub fn is_space(c: char) -> (r: bool)
    ensures
        r == is_space_char(c),
{
    c == ' ' || c == '\t' || c == '\r' || c == '\u{b}' || c == '\u{c}'
}

/// Returns `s` with leading and trailing whitespace removed, as
/// [`trim_spec`] describes.
pub fn trim<'a>(s: &'a str) -> (r: &'a str)
    ensures
        r@ == trim_spec(s@),
{
    let n: usize = s.unicode_len();
    let mut start: usize = 0;
    while start < n && is_space(s.get_char(start))
        invariant
            0 <= start <= n,
            n == s@.len(),
            forall|j: int| 0 <= j < start ==> is_space_char(s@[j]),
        decreases n - start,
    {
        start = start + 1;
    }
    let mut end: usize = n;
    while end > start && is_space(s.get_char(end - 1))
        invariant
            start <= end <= n,
            n == s@.len(),
            forall|j: int| 0 <= j < start ==> is_space_char(s@[j]),
            forall|j: int| end <= j < n ==> is_space_char(s@[j]),
        decreases end,
    {
        end = end - 1;
    }
    proof {
        lemma_drop_leading_spaces_subrange(s@, start as int);
        let mid = s@.subrange(start as int, n as int);
        assert(forall|j: int| end - start <= j < mid.len() ==> is_space_char(#[trigger] mid[j]));
        lemma_drop_trailing_spaces_subrange(mid, end - start);
        assert(mid.subrange(0, end - start) =~= s@.subrange(start as int, end as int));
    }
    s.substring_char(start, end)
}

/// Whether the characters of `a` and `b` are equal.
pub fn str_eq(a: &str, b: &str) -> (r: bool)
    ensures
        r == (a@ == b@),
{
    let na: usize = a.unicode_len();
    let nb: usize = b.unicode_len();
    if na != nb {
        return false;
    }
    let mut i: usize = 0;
    while i < na
        invariant
            0 <= i <= na,
            na == a@.len(),
            na == b@.len(),
            forall|j: int| 0 <= j < i ==> a@[j] == b@[j],
        decreases na - i,
    {
        if a.get_char(i) != b.get_char(i) {
            return false;
        }
        i = i + 1;
    }
    proof {
        assert(a@ =~= b@);
    }
    true
}

/// Whether `pat` occurs in `s` at position `i`.
pub fn match_at(s: &str, pat: &str, i: usize) -> (r: bool)
    requires
        i + pat@.len() <= s@.len() <= usize::MAX,
    ensures
        r == matches_at(s@, pat@, i as int),
{
    let np: usize = pat.unicode_len();
    let mut k: usize = 0;
    while k < np
        invariant
            0 <= k <= np,
            i + np <= s@.len() <= usize::MAX,
            np == pat@.len(),
            forall|j: int| 0 <= j < k ==> s@[i + j] == pat@[j],
        decreases np - k,
    {
        if s.get_char(i + k) != pat.get_char(k) {
            proof {
                let sub = s@.subrange(i as int, i + np);
                assert(sub[k as int] == s@[i + k]);
            }
            return false;
        }
        k = k + 1;
    }
    proof {
        assert(s@.subrange(i as int, i + np) =~= pat@);
    }
    true
}

/// Whether `p` is a prefix of `s`.
pub fn starts_with(s: &str, p: &str) -> (r: bool)
    ensures
        r == starts_with_spec(s@, p@),
{
    let ns: usize = s.unicode_len();
    let np: usize = p.unicode_len();
    if np > ns {
        return false;
    }
    match_at(s, p, 0)
}

/// The remainder of `s` after a prefix `p`, when `p` is one.
pub fn strip_prefix<'a>(s: &'a str, p: &str) -> (r: Option<&'a str>)
    ensures
        starts_with_spec(s@, p@) ==> r is Some && r.unwrap()@ == s@.subrange(
            p@.len() as int,
            s@.len() as int,
        ),
        !starts_with_spec(s@, p@) ==> r is None,
{
    if starts_with(s, p) {
        Some(s.substring_char(p.unicode_len(), s.unicode_len()))
    } else {
        None
    }
}

/// The position of the first occurrence of `pat` in `s`, if any.
pub fn find(s: &str, pat: &str) -> (r: Option<usize>)
    ensures
        match r {
            Some(i) => find_from(s@, pat@, 0) == Some(i as int) && matches_at(s@, pat@, i as int),
            None => find_from(s@, pat@, 0) is None,
        },
{
    let ns: usize = s.unicode_len();
    let np: usize = pat.unicode_len();
    if np > ns {
        return None;
    }
    if np == 0 {
        proof {
            assert(s@.subrange(0, 0) =~= pat@);
        }
        return Some(0);
    }
    let mut i: usize = 0;
    while i <= ns - np
        invariant
            0 <= i <= ns - np + 1,
            1 <= np <= ns,
            ns == s@.len(),
            np == pat@.len(),
            find_from(s@, pat@, 0) == find_from(s@, pat@, i as int),
        decreases ns - i,
    {
        if match_at(s, pat, i) {
            return Some(i);
        }
        i = i + 1;
    }
    None
}

/// `s` split at the first occurrence of `pat`, as [`split_once_spec`]
/// describes.
pub fn split_once<'a>(s: &'a str, pat: &str) -> (r: Option<(&'a str, &'a str)>)
    ensures
        match r {
            Some(p) => split_once_spec(s@, pat@) == Some((p.0@, p.1@)),
            None => split_once_spec(s@, pat@) is None,
        },
{
    let ns: usize = s.unicode_len();
    match find(s, pat) {
        Some(i) => {
            let before = s.substring_char(0, i);
            let after = s.substring_char(i + pat.unicode_len(), ns);
            Some((before, after))
        },
        None => None,
    }
}

/// Splits `s` on `'\n'`, as [`lines_spec`] describes.
pub fn split_lines(s: &str) -> (r: Vec<String>)
    ensures
        r.deep_view() == lines_spec(s@),
{
    proof {
        reveal_strlit("\n");
        assert("\n"@ =~= seq!['\n']);
    }
    let mut rest: &str = s;
    let mut out: Vec<String> = Vec::new();
    loop
        invariant
            "\n"@ == seq!['\n'],
            lines_spec(s@) == out.deep_view() + lines_spec(rest@),
        decreases rest@.len(),
    {
        match find(rest, "\n") {
            Some(i) => {
                let n: usize = rest.unicode_len();
                let piece = rest.substring_char(0, i);
                let ghost old_rest = rest@;
                let ghost old_out = out.deep_view();
                out.push(piece.to_owned());
                rest = rest.substring_char(i + 1, n);
                proof {
                    assert(out.deep_view() =~= old_out.push(old_rest.subrange(0, i as int)));
                    assert(lines_spec(old_rest) == seq![old_rest.subrange(0, i as int)]
                        + lines_spec(rest@));
                    assert(out.deep_view() + lines_spec(rest@) =~= old_out + lines_spec(old_rest));
                }
            },
            None => {
                let ghost old_out = out.deep_view();
                out.push(rest.to_owned());
                proof {
                    assert(lines_spec(rest@) == seq![rest@]);
                    assert(out.deep_view() =~= old_out + seq![rest@]);
                }
                return out;
            },
        }
    }
}

/// Where [`lex_lt`] is decided: at the first position where the two
/// sequences differ, or by length when one is a prefix of the other.
proof fn lemma_lex_lt_skip(a: Seq<char>, b: Seq<char>, i: int)
    requires
        0 <= i <= a.len(),
        i <= b.len(),
        forall|j: int| 0 <= j < i ==> a[j] == b[j],
    ensures
        lex_lt(a, b) == lex_lt(a.skip(i), b.skip(i)),
    decreases i,
{
    if i > 0 {
        assert(a.len() > 0 && b.len() > 0);
        assert(a[0] == b[0]);
        let a1 = a.drop_first();
        let b1 = b.drop_first();
        assert(forall|j: int| 0 <= j < i - 1 ==> #[trigger] a1[j] == b1[j]);
        lemma_lex_lt_skip(a1, b1, i - 1);
        assert(a1.skip(i - 1) =~= a.skip(i));
        assert(b1.skip(i - 1) =~= b.skip(i));
    } else {
        assert(a.skip(0) =~= a);
        assert(b.skip(0) =~= b);
    }
}

/// Decides [`lex_lt`] on two string slices.
pub fn str_lt(a: &str, b: &str) -> (r: bool)
    ensures
        r == lex_lt(a@, b@),
{
    let na: usize = a.unicode_len();
    let nb: usize = b.unicode_len();
    let mut i: usize = 0;
    while i < na && i < nb
        invariant
            0 <= i,
            i <= na,
            i <= nb,
            na == a@.len(),
            nb == b@.len(),
            forall|j: int| 0 <= j < i ==> a@[j] == b@[j],
        decreases na - i,
    {
        let ca = a.get_char(i);
        let cb = b.get_char(i);
        if ca != cb {
            proof {
                lemma_lex_lt_skip(a@, b@, i as int);
            }
            return (ca as u32) < (cb as u32);
        }
        i = i + 1;
    }
    proof {
        lemma_lex_lt_skip(a@, b@, i as int);
        if i == na && i == nb {
            assert(a@ =~= b@);
        }
    }
    i == na && i < nb
}

/// `x` inserted in front of the first element of `s` that is not below it.
pub open spec fn insert_lex(x: Seq<char>, s: Seq<Seq<char>>) -> Seq<Seq<char>>
    decreases s.len(),
{
    if s.len() == 0 {
        seq![x]
    } else if lex_le(x, s[0]) {
        seq![x] + s
    } else {
        seq![s[0]] + insert_lex(x, s.drop_first())
    }
}

/// `s` sorted by [`lex_le`], one insertion at a time.
pub open spec fn sort_lex_spec(s: Seq<Seq<char>>) -> Seq<Seq<char>>
    decreases s.len(),
{
    if s.len() == 0 {
        Seq::empty()
    } else {
        insert_lex(s[0], sort_lex_spec(s.drop_first()))
    }
}

proof fn lemma_insert_lex_at(x: Seq<char>, s: Seq<Seq<char>>, p: int)
    requires
        0 <= p <= s.len(),
        forall|j: int| 0 <= j < p ==> !lex_le(x, s[j]),
        p == s.len() || lex_le(x, s[p]),
    ensures
        insert_lex(x, s) == s.subrange(0, p) + seq![x] + s.skip(p),
    decreases p,
{
    if s.len() == 0 {
        assert(insert_lex(x, s) =~= s.subrange(0, p) + seq![x] + s.skip(p));
    } else if p == 0 {
        assert(seq![x] + s =~= s.subrange(0, 0) + seq![x] + s.skip(0));
    } else {
        let t = s.drop_first();
        assert(forall|j: int| 0 <= j < p - 1 ==> !lex_le(x, #[trigger] t[j]));
        lemma_insert_lex_at(x, t, p - 1);
        assert(seq![s[0]] + (t.subrange(0, p - 1) + seq![x] + t.skip(p - 1)) =~= s.subrange(0, p)
            + seq![x] + s.skip(p));
    }
}

/// Inserts `x` into the sorted vector `v`, as [`insert_lex`] describes.
fn insert_string_sorted(x: String, v: &Vec<String>) -> (r: Vec<String>)
    ensures
        r.deep_view() == insert_lex(x@, v.deep_view()),
{
    let n: usize = v.len();
    let mut p: usize = 0;
    while p < n && str_lt(v[p].as_str(), x.as_str())
        invariant
            0 <= p <= n,
            n == v.len(),
            forall|j: int| 0 <= j < p ==> !lex_le(x@, v.deep_view()[j]),
        decreases n - p,
    {
        proof {
            lemma_lex_asym(v.deep_view()[p as int], x@);
        }
        p = p + 1;
    }
    proof {
        if p < n {
            assert(!lex_lt(v.deep_view()[p as int], x@));
            assert(lex_le(x@, v.deep_view()[p as int])) by {
                lemma_lex_total(x@, v.deep_view()[p as int]);
            }
        }
        lemma_insert_lex_at(x@, v.deep_view(), p as int);
    }
    let mut out: Vec<String> = Vec::new();
    let mut i: usize = 0;
    while i < p
        invariant
            0 <= i <= p <= n,
            n == v.len(),
            out.deep_view() =~= v.deep_view().subrange(0, i as int),
        decreases p - i,
    {
        let ghost old_dv = out.deep_view();
        out.push(v[i].clone());
        proof {
            assert(out.deep_view() =~= old_dv.push(v.deep_view()[i as int]));
        }
        i = i + 1;
    }
    let ghost before_x = out.deep_view();
    out.push(x);
    proof {
        assert(out.deep_view() =~= before_x.push(x@));
    }
    let mut k: usize = p;
    while k < n
        invariant
            p <= k <= n,
            n == v.len(),
            out.deep_view() =~= v.deep_view().subrange(0, p as int) + seq![x@]
                + v.deep_view().subrange(p as int, k as int),
        decreases n - k,
    {
        let ghost old_dv = out.deep_view();
        out.push(v[k].clone());
        proof {
            assert(out.deep_view() =~= old_dv.push(v.deep_view()[k as int]));
        }
        k = k + 1;
    }
    proof {
        assert(v.deep_view().subrange(p as int, n as int) =~= v.deep_view().skip(p as int));
        assert(out.deep_view() =~= v.deep_view().subrange(0, p as int) + seq![x@]
            + v.deep_view().skip(p as int));
    }
    out
}

/// One of `lex_lt(a, b)`, `a == b`, `lex_lt(b, a)` always holds.
pub proof fn lemma_lex_total(a: Seq<char>, b: Seq<char>)
    ensures
        lex_lt(a, b) || lex_lt(b, a) || a == b,
    decreases a.len(),
{
    if a.len() > 0 && b.len() > 0 && a[0] == b[0] {
        lemma_lex_total(a.drop_first(), b.drop_first());
        if a.drop_first() == b.drop_first() {
            assert(a.drop_first().len() == a.len() - 1);
            assert(b.drop_first().len() == b.len() - 1);
            assert forall|i: int| 0 <= i < a.len() implies a[i] == b[i] by {
                if i > 0 {
                    assert(a.drop_first()[i - 1] == a[i]);
                    assert(b.drop_first()[i - 1] == b[i]);
                }
            }
            assert(a =~= b);
        }
    }
}

/// [`lex_lt`] is asymmetric and irreflexive.
pub proof fn lemma_lex_asym(a: Seq<char>, b: Seq<char>)
    requires
        lex_lt(a, b),
    ensures
        !lex_lt(b, a),
        a != b,
    decreases a.len(),
{
    if a.len() > 0 && b.len() > 0 && a[0] == b[0] {
        lemma_lex_asym(a.drop_first(), b.drop_first());
        if a == b {
            assert(a.drop_first() =~= b.drop_first());
        }
    }
}

/// Returns the strings of `v` sorted by [`lex_le`], as [`sort_lex_spec`]
/// describes.
pub fn sort_strings(v: &Vec<String>) -> (r: Vec<String>)
    ensures
        r.deep_view() == sort_lex_spec(v.deep_view()),
{
    let n: usize = v.len();
    let mut out: Vec<String> = Vec::new();
    let mut i: usize = n;
    while i > 0
        invariant
            0 <= i <= n,
            n == v.len(),
            out.deep_view() == sort_lex_spec(v.deep_view().skip(i as int)),
        decreases i,
    {
        i = i - 1;
        let ghost pre = v.deep_view().skip(i as int);
        proof {
            assert(pre[0] == v.deep_view()[i as int]);
            assert(pre.drop_first() =~= v.deep_view().skip(i + 1));
        }
        out = insert_string_sorted(v[i].clone(), &out);
    }
    proof {
        assert(v.deep_view().skip(0) =~= v.deep_view());
    }
    out
}

/// Inserting keeps exactly the old elements and the new one.
pub proof fn lemma_insert_lex_contains(x: Seq<char>, s: Seq<Seq<char>>)
    ensures
        forall|y: Seq<char>|
            #[trigger] insert_lex(x, s).contains(y) == (y == x || s.contains(y)),
    decreases s.len(),
{
    if s.len() == 0 {
        assert forall|y: Seq<char>|
            #[trigger] insert_lex(x, s).contains(y) == (y == x || s.contains(y)) by {
            if y == x {
                assert(insert_lex(x, s)[0] == x);
            }
        }
    } else if lex_le(x, s[0]) {
        let t = seq![x] + s;
        assert forall|y: Seq<char>| #[trigger] t.contains(y) == (y == x || s.contains(y)) by {
            if t.contains(y) {
                let i = choose|i: int| 0 <= i < t.len() && t[i] == y;
                if i > 0 {
                    assert(s[i - 1] == y);
                }
            }
            if y == x {
                assert(t[0] == y);
            }
            if s.contains(y) {
                let i = choose|i: int| 0 <= i < s.len() && s[i] == y;
                assert(t[i + 1] == y);
            }
        }
    } else {
        lemma_insert_lex_contains(x, s.drop_first());
        let u = insert_lex(x, s.drop_first());
        let t = seq![s[0]] + u;
        assert(insert_lex(x, s) == t);
        assert forall|y: Seq<char>| #[trigger] t.contains(y) == (y == x || s.contains(y)) by {
            if t.contains(y) {
                let i = choose|i: int| 0 <= i < t.len() && t[i] == y;
                if i > 0 {
                    assert(u[i - 1] == y);
                    assert(u.contains(y));
                    if s.drop_first().contains(y) {
                        let j = choose|j: int|
                            0 <= j < s.drop_first().len() && s.drop_first()[j] == y;
                        assert(s[j + 1] == y);
                    }
                } else {
                    assert(s[0] == y);
                }
            }
            if y == x {
                assert(u.contains(y));
                let i = choose|i: int| 0 <= i < u.len() && u[i] == y;
                assert(t[i + 1] == y);
            }
            if s.contains(y) {
                let i = choose|i: int| 0 <= i < s.len() && s[i] == y;
                if i == 0 {
                    assert(t[0] == y);
                } else {
                    assert(s.drop_first()[i - 1] == y);
                    assert(u.contains(y));
                    let j = choose|j: int| 0 <= j < u.len() && u[j] == y;
                    assert(t[j + 1] == y);
                }
            }
        }
    }
}

/// Sorting keeps exactly the elements.
pub proof fn lemma_sort_contains(s: Seq<Seq<char>>)
    ensures
        forall|y: Seq<char>| #[trigger] sort_lex_spec(s).contains(y) == s.contains(y),
    decreases s.len(),
{
    if s.len() > 0 {
        lemma_sort_contains(s.drop_first());
        lemma_insert_lex_contains(s[0], sort_lex_spec(s.drop_first()));
        assert forall|y: Seq<char>| #[trigger] sort_lex_spec(s).contains(y) == s.contains(y) by {
            if s.contains(y) {
                let i = choose|i: int| 0 <= i < s.len() && s[i] == y;
                if i > 0 {
                    assert(s.drop_first()[i - 1] == y);
                }
            }
            if s.drop_first().contains(y) {
                let i = choose|i: int| 0 <= i < s.drop_first().len() && s.drop_first()[i] == y;
                assert(s[i + 1] == y);
            }
        }
    }
}

/// The pieces of `s` joined with `sep` between each two.
pub open spec fn join_spec(s: Seq<Seq<char>>, sep: Seq<char>) -> Seq<char>
    decreases s.len(),
{
    if s.len() == 0 {
        Seq::empty()
    } else if s.len() == 1 {
        s[0]
    } else {
        s[0] + sep + join_spec(s.drop_first(), sep)
    }
}

pub proof fn lemma_join_snoc(s: Seq<Seq<char>>, sep: Seq<char>, x: Seq<char>)
    requires
        s.len() >= 1,
    ensures
        join_spec(s.push(x), sep) == join_spec(s, sep) + sep + x,
    decreases s.len(),
{
    if s.len() == 1 {
        assert(s.push(x)[0] == s[0]);
        assert(s.push(x).drop_first() =~= seq![x]);
        assert(join_spec(seq![x], sep) == seq![x][0]);
        assert(seq![x][0] == x);
        assert(join_spec(s.push(x), sep) == s[0] + sep + x);
        assert(join_spec(s, sep) == s[0]);
    } else {
        lemma_join_snoc(s.drop_first(), sep, x);
        assert(s.push(x).drop_first() =~= s.drop_first().push(x));
        assert(s.push(x)[0] == s[0]);
        assert((s[0] + sep) + (join_spec(s.drop_first(), sep) + sep + x) =~= (s[0] + sep
            + join_spec(s.drop_first(), sep)) + sep + x);
    }
}

/// Joins the strings of `v` with `sep`, as [`join_spec`] describes.
pub fn join_strings(v: &Vec<String>, sep: &str) -> (r: String)
    ensures
        r@ == join_spec(v.deep_view(), sep@),
{
    let n: usize = v.len();
    let mut out = String::new();
    if n == 0 {
        proof {
            assert(out@ =~= join_spec(v.deep_view(), sep@));
        }
        return out;
    }
    out.append(v[0].as_str());
    let mut i: usize = 1;
    while i < n
        invariant
            1 <= i <= n,
            n == v.len(),
            out@ == join_spec(v.deep_view().subrange(0, i as int), sep@),
        decreases n - i,
    {
        out.append(sep);
        out.append(v[i].as_str());
        proof {
            let pre = v.deep_view().subrange(0, i as int);
            lemma_join_snoc(pre, sep@, v.deep_view()[i as int]);
            assert(pre.push(v.deep_view()[i as int]) =~= v.deep_view().subrange(0, i + 1));
        }
        i = i + 1;
    }
    proof {
        assert(v.deep_view().subrange(0, n as int) =~= v.deep_view());
    }
    out
}

/// Copies a vector of strings, element for element.
pub fn clone_strings(v: &Vec<String>) -> (r: Vec<String>)
    ensures
        r@ == v@,
{
    let n: usize = v.len();
    let mut out: Vec<String> = Vec::new();
    let mut i: usize = 0;
    while i < n
        invariant
            0 <= i <= n,
            n == v.len(),
            out@ =~= v@.subrange(0, i as int),
        decreases n - i,
    {
        out.push(v[i].clone());
        i = i + 1;
    }
    proof {
        assert(v@.subrange(0, n as int) =~= v@);
    }
    out
}

/// Builds `a + b` as one string.
pub fn concat(a: &str, b: &str) -> (r: String)
    ensures
        r@ == a@ + b@,
{
    let mut s = String::from_str(a);
    s.append(b);
    s
}

/// Whether some string of `v` has the characters of `x`.
pub fn contains_string(v: &Vec<String>, x: &str) -> (r: bool)
    ensures
        r == v.deep_view().contains(x@),
{
    let n: usize = v.len();
    let mut i: usize = 0;
    while i < n
        invariant
            0 <= i <= n,
            n == v.len(),
            forall|j: int| 0 <= j < i ==> v.deep_view()[j] != x@,
        decreases n - i,
    {
        if str_eq(v[i].as_str(), x) {
            assert(v.deep_view()[i as int] == x@);
            return true;
        }
        i = i + 1;
    }
    false
}

/// The decimal digit `d` as a character.
pub open spec fn digit_char(d: int) -> char {
    if d == 0 { '0' }
    else if d == 1 { '1' }
    else if d == 2 { '2' }
    else if d == 3 { '3' }
    else if d == 4 { '4' }
    else if d == 5 { '5' }
    else if d == 6 { '6' }
    else if d == 7 { '7' }
    else if d == 8 { '8' }
    else { '9' }
}

/// `n` written in decimal, most significant digit first.
pub open spec fn dec_str(n: nat) -> Seq<char>
    decreases n,
{
    if n < 10 {
        seq![digit_char(n as int)]
    } else {
        dec_str(n / 10).push(digit_char((n % 10) as int))
    }
}

fn digit_str(d: u64) -> (r: &'static str)
    requires
        d < 10,
    ensures
        r@ == seq![digit_char(d as int)],
{
    proof {
        reveal_strlit("0");
        reveal_strlit("1");
        reveal_strlit("2");
        reveal_strlit("3");
        reveal_strlit("4");
        reveal_strlit("5");
        reveal_strlit("6");
        reveal_strlit("7");
        reveal_strlit("8");
        reveal_strlit("9");
    }
    let r: &'static str = if d == 0 { "0" }
    else if d == 1 { "1" }
    else if d == 2 { "2" }
    else if d == 3 { "3" }
    else if d == 4 { "4" }
    else if d == 5 { "5" }
    else if d == 6 { "6" }
    else if d == 7 { "7" }
    else if d == 8 { "8" }
    else { "9" };
    proof {
        assert(r@ =~= seq![digit_char(d as int)]);
    }
    r
}

/// Writes `n` in decimal, as [`dec_str`] describes.
pub fn u64_to_string(n: u64) -> (r: String)
    ensures
        r@ == dec_str(n as nat),
    decreases n,
{
    if n < 10 {
        digit_str(n).to_owned()
    } else {
        let mut s = u64_to_string(n / 10);
        s.append(digit_str(n % 10));
        proof {
            assert(dec_str((n / 10) as nat).push(digit_char((n % 10) as int)) =~= dec_str(
                (n / 10) as nat,
            ) + seq![digit_char((n % 10) as int)]);
        }
        s
    }
}

/// `n` written in decimal with a leading minus sign when negative.
pub open spec fn int_str(n: int) -> Seq<char> {
    if n < 0 {
        seq!['-'] + dec_str((-n) as nat)
    } else {
        dec_str(n as nat)
    }
}

/// Writes `n` in decimal, as [`int_str`] describes.
pub fn i32_to_string(n: i32) -> (r: String)
    ensures
        r@ == int_str(n as int),
{
    if n < 0 {
        let mag: u64 = if n == i32::MIN {
            2147483648u64
        } else {
            (-n) as u64
        };
        let mut s = String::from_str("-");
        s.append(u64_to_string(mag).as_str());
        proof {
            reveal_strlit("-");
            assert("-"@ =~= seq!['-']);
        }
        s
    } else {
        u64_to_string(n as u64)
    }
}

} // verus!
