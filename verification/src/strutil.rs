//! Character-sequence utilities: lexicographic order, comparison, and
//! conversion between `&str` and `Vec<char>`.
//!
//! The engine works over `Vec<char>` internally; `String` appears only at the
//! public boundary. Lexicographic order over code points coincides with the
//! byte order of the UTF-8 encoding, so sorting tokens this way matches the
//! ordering of Rust's `str` comparison.

use vstd::prelude::*;

verus! {

/// Strict lexicographic order on character sequences, by code point.
pub open spec fn lex_lt(a: Seq<char>, b: Seq<char>) -> bool
    decreases a.len(),
{
    if b.len() == 0 {
        false
    } else if a.len() == 0 {
        true
    } else if a[0] < b[0] {
        true
    } else if b[0] < a[0] {
        false
    } else {
        lex_lt(a.drop_first(), b.drop_first())
    }
}

pub proof fn lemma_lex_lt_irreflexive(a: Seq<char>)
    ensures
        !lex_lt(a, a),
    decreases a.len(),
{
    if a.len() > 0 {
        lemma_lex_lt_irreflexive(a.drop_first());
    }
}

pub proof fn lemma_lex_lt_asymmetric(a: Seq<char>, b: Seq<char>)
    ensures
        lex_lt(a, b) ==> !lex_lt(b, a),
    decreases a.len(),
{
    if a.len() > 0 && b.len() > 0 {
        lemma_lex_lt_asymmetric(a.drop_first(), b.drop_first());
    }
}

/// Sequences unordered by `lex_lt` in both directions are equal.
pub proof fn lemma_lex_lt_connected(a: Seq<char>, b: Seq<char>)
    ensures
        !lex_lt(a, b) && !lex_lt(b, a) ==> a == b,
    decreases a.len(),
{
    if a.len() > 0 && b.len() > 0 {
        lemma_lex_lt_connected(a.drop_first(), b.drop_first());
        if !lex_lt(a, b) && !lex_lt(b, a) {
            assert(a[0] == b[0]);
            assert(a.drop_first() == b.drop_first());
            assert(a =~= seq![a[0]] + a.drop_first());
            assert(b =~= seq![b[0]] + b.drop_first());
        }
    } else if a.len() == 0 && b.len() == 0 {
        assert(a =~= b);
    }
}

pub proof fn lemma_lex_lt_transitive(a: Seq<char>, b: Seq<char>, c: Seq<char>)
    ensures
        lex_lt(a, b) && lex_lt(b, c) ==> lex_lt(a, c),
    decreases a.len(),
{
    if a.len() > 0 && b.len() > 0 && c.len() > 0 {
        lemma_lex_lt_transitive(a.drop_first(), b.drop_first(), c.drop_first());
    }
}

/// Three-way comparison of two character vectors under `lex_lt`.
///
/// Returns -1, 0 or 1 as `a` is below, equal to, or above `b`.
pub fn chars_cmp(a: &Vec<char>, b: &Vec<char>) -> (r: i8)
    ensures
        r == -1i8 <==> lex_lt(a@, b@),
        r == 1i8 <==> lex_lt(b@, a@),
        r == 0i8 <==> a@ == b@,
{
    let mut i: usize = 0;
    proof {
        assert(a@.take(0) =~= b@.take(0));
        assert(a@.skip(0) =~= a@);
        assert(b@.skip(0) =~= b@);
    }
    loop
        invariant
            0 <= i <= a.len(),
            i <= b.len(),
            a@.take(i as int) == b@.take(i as int),
            lex_lt(a@, b@) == lex_lt(a@.skip(i as int), b@.skip(i as int)),
            lex_lt(b@, a@) == lex_lt(b@.skip(i as int), a@.skip(i as int)),
        decreases a.len() - i,
    {
        proof {
            lemma_lex_lt_irreflexive(a@);
            lemma_lex_lt_asymmetric(a@, b@);
            lemma_lex_lt_asymmetric(b@, a@);
        }
        if i == a.len() || i == b.len() {
            if a.len() == b.len() {
                proof {
                    assert(a@.take(i as int) =~= a@);
                    assert(b@.take(i as int) =~= b@);
                }
                return 0;
            } else if i == a.len() {
                proof {
                    assert(lex_lt(a@.skip(i as int), b@.skip(i as int)));
                }
                return -1;
            } else {
                proof {
                    assert(lex_lt(b@.skip(i as int), a@.skip(i as int)));
                }
                return 1;
            }
        }
        let x = a[i];
        let y = b[i];
        proof {
            assert(a@.skip(i as int)[0] == a@[i as int]);
            assert(b@.skip(i as int)[0] == b@[i as int]);
        }
        if x < y {
            proof {
                assert(lex_lt(a@.skip(i as int), b@.skip(i as int)));
                assert(!lex_lt(b@.skip(i as int), a@.skip(i as int)));
            }
            return -1;
        } else if y < x {
            proof {
                assert(lex_lt(b@.skip(i as int), a@.skip(i as int)));
                assert(!lex_lt(a@.skip(i as int), b@.skip(i as int)));
            }
            return 1;
        }
        proof {
            assert(x == y);
            assert(a@.skip(i as int).drop_first() =~= a@.skip(i + 1));
            assert(b@.skip(i as int).drop_first() =~= b@.skip(i + 1));
            assert(a@.take(i + 1) =~= a@.take(i as int).push(x));
            assert(b@.take(i + 1) =~= b@.take(i as int).push(y));
        }
        i = i + 1;
    }
}

/// Collects the characters of a string slice into a vector.
pub fn to_chars(s: &str) -> (r: Vec<char>)
    ensures
        r@ == s@,
{
    let n = s.unicode_len();
    let mut r: Vec<char> = Vec::new();
    let mut i: usize = 0;
    while i < n
        invariant
            0 <= i <= n,
            n == s@.len(),
            r@ == s@.take(i as int),
        decreases n - i,
    {
        r.push(s.get_char(i));
        proof {
            assert(s@.take(i + 1) =~= s@.take(i as int).push(s@[i as int]));
        }
        i = i + 1;
    }
    proof {
        assert(s@.take(n as int) =~= s@);
    }
    r
}

/// Every character's code point lies in the Unicode scalar range.
pub proof fn lemma_char_bounds(c: char)
    ensures
        0 <= c as int,
        c as int <= 0x10FFFF,
{
}

/// Tests whether `pat` occurs in `s` starting at index `i`.
pub open spec fn match_at(s: Seq<char>, pat: Seq<char>, i: int) -> bool {
    0 <= i && i + pat.len() <= s.len() && s.subrange(i, i + pat.len()) == pat
}

/// Exact equality of two character vectors.
pub fn chars_eq(a: &Vec<char>, b: &Vec<char>) -> (r: bool)
    ensures
        r == (a@ == b@),
{
    let c = chars_cmp(a, b);
    c == 0
}

/// Index of the first occurrence of `pat` in `s` at or after `i`.
pub open spec fn first_match_from(s: Seq<char>, pat: Seq<char>, i: int) -> Option<int>
    recommends
        0 <= i,
    decreases s.len() + 1 - i,
{
    if i < 0 || i + pat.len() > s.len() {
        None
    } else if match_at(s, pat, i) {
        Some(i)
    } else {
        first_match_from(s, pat, i + 1)
    }
}

proof fn lemma_first_match_from_found(s: Seq<char>, pat: Seq<char>, i: int, k: int)
    requires
        0 <= i <= k,
        match_at(s, pat, k),
        forall|j: int| i <= j < k ==> !match_at(s, pat, j),
    ensures
        first_match_from(s, pat, i) == Some(k),
    decreases k - i,
{
    if i < k {
        lemma_first_match_from_found(s, pat, i + 1, k);
    }
}

proof fn lemma_first_match_from_none(s: Seq<char>, pat: Seq<char>, i: int)
    requires
        0 <= i,
        forall|j: int| i <= j ==> !match_at(s, pat, j),
    ensures
        first_match_from(s, pat, i) is None,
    decreases s.len() + 1 - i,
{
    if !(i < 0 || i + pat.len() > s.len()) {
        lemma_first_match_from_none(s, pat, i + 1);
    }
}

/// Tests executable occurrence of `pat` at position `i`.
pub fn is_match_at(s: &Vec<char>, pat: &Vec<char>, i: usize) -> (r: bool)
    requires
        i <= s@.len(),
    ensures
        r == match_at(s@, pat@, i as int),
{
    if pat.len() > s.len() - i {
        return false;
    }
    let mut k: usize = 0;
    while k < pat.len()
        invariant
            0 <= k <= pat@.len(),
            i + pat@.len() <= s@.len(),
            s@.len() == s.len(),
            pat@.len() == pat.len(),
            s@.subrange(i as int, i + k) == pat@.take(k as int),
        decreases pat@.len() - k,
    {
        if s[i + k] != pat[k] {
            proof {
                assert(s@.subrange(i as int, i + pat@.len())[k as int] == s@[i + k]);
            }
            return false;
        }
        proof {
            assert(s@.subrange(i as int, i + k + 1) =~= s@.subrange(i as int, i + k).push(
                s@[i + k],
            ));
            assert(pat@.take(k + 1) =~= pat@.take(k as int).push(pat@[k as int]));
        }
        k = k + 1;
    }
    proof {
        assert(s@.subrange(i as int, i + pat@.len()) =~= pat@.take(pat@.len() as int));
        assert(pat@.take(pat@.len() as int) =~= pat@);
    }
    true
}

/// Finds the first occurrence of `pat` in `s`.
pub fn find_first(s: &Vec<char>, pat: &Vec<char>) -> (r: Option<usize>)
    ensures
        match r {
            Some(k) => first_match_from(s@, pat@, 0) == Some(k as int),
            None => first_match_from(s@, pat@, 0) is None,
        },
{
    let mut i: usize = 0;
    loop
        invariant
            0 <= i <= s@.len(),
            s@.len() == s.len(),
            forall|j: int| 0 <= j < i ==> !match_at(s@, pat@, j),
        decreases s@.len() - i,
    {
        if is_match_at(s, pat, i) {
            proof {
                lemma_first_match_from_found(s@, pat@, 0, i as int);
            }
            return Some(i);
        }
        if i == s.len() {
            proof {
                assert forall|j: int| 0 <= j implies !match_at(s@, pat@, j) by {
                    if j > i {
                        assert(j + pat@.len() > s@.len());
                    }
                }
                lemma_first_match_from_none(s@, pat@, 0);
            }
            return None;
        }
        i = i + 1;
    }
}

/// Copies the subrange `[a, b)` of a vector.
pub fn subvec(s: &Vec<char>, a: usize, b: usize) -> (r: Vec<char>)
    requires
        a <= b <= s@.len(),
    ensures
        r@ == s@.subrange(a as int, b as int),
{
    let mut r: Vec<char> = Vec::new();
    let mut i: usize = a;
    while i < b
        invariant
            a <= i <= b <= s@.len(),
            r@ == s@.subrange(a as int, i as int),
        decreases b - i,
    {
        r.push(s[i]);
        proof {
            assert(s@.subrange(a as int, i + 1) =~= s@.subrange(a as int, i as int).push(
                s@[i as int],
            ));
        }
        i = i + 1;
    }
    r
}

/// Copies the subrange `[a, b)` of a byte vector.
pub fn subvec_u8(s: &Vec<u8>, a: usize, b: usize) -> (r: Vec<u8>)
    requires
        a <= b <= s@.len(),
    ensures
        r@ == s@.subrange(a as int, b as int),
{
    let mut r: Vec<u8> = Vec::new();
    let mut i: usize = a;
    while i < b
        invariant
            a <= i <= b <= s@.len(),
            r@ == s@.subrange(a as int, i as int),
        decreases b - i,
    {
        r.push(s[i]);
        proof {
            assert(s@.subrange(a as int, i + 1) =~= s@.subrange(a as int, i as int).push(
                s@[i as int],
            ));
        }
        i = i + 1;
    }
    r
}

/// Appends all characters of `src` to `dst`.
pub fn push_all(dst: &mut Vec<char>, src: &Vec<char>)
    ensures
        final(dst)@ == old(dst)@ + src@,
{
    let mut i: usize = 0;
    proof {
        assert(dst@ =~= dst@ + src@.take(0));
    }
    while i < src.len()
        invariant
            0 <= i <= src@.len(),
            dst@ == old(dst)@ + src@.take(i as int),
        decreases src@.len() - i,
    {
        dst.push(src[i]);
        proof {
            assert(old(dst)@ + src@.take(i + 1) =~= (old(dst)@ + src@.take(i as int)).push(
                src@[i as int],
            ));
        }
        i = i + 1;
    }
    proof {
        assert(src@.take(src@.len() as int) =~= src@);
    }
}

/// The pieces of `s` cut at each occurrence of a non-empty separator.
///
/// An input with no occurrence yields a single piece, so the empty input
/// yields one empty piece.
pub open spec fn split_spec(s: Seq<char>, sep: Seq<char>) -> Seq<Seq<char>>
    recommends
        sep.len() > 0,
    decreases s.len(),
{
    match first_match_from(s, sep, 0) {
        Option::None => seq![s],
        Option::Some(i) => {
            if 0 <= i && i + sep.len() <= s.len() && sep.len() > 0 {
                seq![s.subrange(0, i)] + split_spec(s.subrange(i + sep.len(), s.len() as int), sep)
            } else {
                seq![s]
            }
        },
    }
}

proof fn lemma_first_match_from_valid(s: Seq<char>, pat: Seq<char>, i: int, k: int)
    requires
        0 <= i,
        first_match_from(s, pat, i) == Some(k),
    ensures
        i <= k && k + pat.len() <= s.len() && match_at(s, pat, k),
    decreases s.len() + 1 - i,
{
    if !(i < 0 || i + pat.len() > s.len()) && !match_at(s, pat, i) {
        lemma_first_match_from_valid(s, pat, i + 1, k);
    }
}

/// Splits `s` at each occurrence of the non-empty separator `sep`.
pub fn split_chars(s: &Vec<char>, sep: &Vec<char>) -> (r: Vec<Vec<char>>)
    requires
        sep@.len() > 0,
    ensures
        r.deep_view() == split_spec(s@, sep@),
{
    let mut r: Vec<Vec<char>> = Vec::new();
    let mut rest: Vec<char> = subvec(s, 0, s.len());
    proof {
        assert(s@.subrange(0, s@.len() as int) =~= s@);
        assert(r.deep_view() + split_spec(rest@, sep@) =~~= split_spec(s@, sep@));
    }
    loop
        invariant
            sep@.len() > 0,
            r.deep_view() + split_spec(rest@, sep@) == split_spec(s@, sep@),
        decreases rest@.len(),
    {
        let ghost pre = r.deep_view();
        match find_first(&rest, sep) {
            None => {
                r.push(rest);
                proof {
                    assert(r.deep_view() =~~= pre + seq![rest@]);
                    assert(r.deep_view() =~~= split_spec(s@, sep@));
                }
                return r;
            },
            Some(i) => {
                proof {
                    lemma_first_match_from_valid(rest@, sep@, 0, i as int);
                    assert(rest@.len() == rest.len());
                    assert(sep@.len() == sep.len());
                }
                let piece = subvec(&rest, 0, i);
                let new_rest = subvec(&rest, i + sep.len(), rest.len());
                r.push(piece);
                proof {
                    assert(split_spec(rest@, sep@) == seq![rest@.subrange(0, i as int)]
                        + split_spec(rest@.subrange(i + sep@.len(), rest@.len() as int), sep@));
                    assert(r.deep_view() =~~= pre + seq![piece@]);
                    assert(r.deep_view() + split_spec(new_rest@, sep@) =~~= split_spec(s@, sep@));
                }
                rest = new_rest;
            },
        }
    }
}

/// Joins tokens with a single ASCII space between neighbours.
pub open spec fn join_spaces(ts: Seq<Seq<char>>) -> Seq<char>
    decreases ts.len(),
{
    if ts.len() == 0 {
        Seq::empty()
    } else if ts.len() == 1 {
        ts[0]
    } else {
        ts[0] + seq![' '] + join_spaces(ts.drop_first())
    }
}

proof fn lemma_join_spaces_push(ts: Seq<Seq<char>>, t: Seq<char>)
    ensures
        ts.len() == 0 ==> join_spaces(ts.push(t)) == t,
        ts.len() > 0 ==> join_spaces(ts.push(t)) == join_spaces(ts) + seq![' '] + t,
    decreases ts.len(),
{
    if ts.len() == 0 {
        assert(ts.push(t)[0] == t);
        assert(join_spaces(ts.push(t)) == t);
    } else if ts.len() == 1 {
        assert(ts.push(t).drop_first() =~= seq![t]);
        assert(ts.push(t)[0] == ts[0]);
        assert(seq![t][0] == t);
        assert(join_spaces(seq![t]) == t);
        assert(join_spaces(ts.push(t)) == ts[0] + seq![' '] + t);
    } else {
        lemma_join_spaces_push(ts.drop_first(), t);
        assert(ts.push(t).drop_first() =~= ts.drop_first().push(t));
        assert(join_spaces(ts) + seq![' '] + t =~= ts[0] + seq![' '] + (join_spaces(
            ts.drop_first(),
        ) + seq![' '] + t));
    }
}

/// Joins a list of tokens with single spaces.
pub fn join_chars(ts: &Vec<Vec<char>>) -> (r: Vec<char>)
    ensures
        r@ == join_spaces(ts.deep_view()),
{
    let mut r: Vec<char> = Vec::new();
    let mut i: usize = 0;
    while i < ts.len()
        invariant
            0 <= i <= ts@.len(),
            ts.deep_view().len() == ts@.len(),
            r@ == join_spaces(ts.deep_view().take(i as int)),
        decreases ts@.len() - i,
    {
        if i > 0 {
            r.push(' ');
        }
        push_all(&mut r, &ts[i]);
        proof {
            let pre = ts.deep_view().take(i as int);
            assert(ts.deep_view().take(i + 1) =~= pre.push(ts@[i as int].deep_view()));
            lemma_join_spaces_push(pre, ts@[i as int].deep_view());
            if i == 0 {
                assert(r@ =~= join_spaces(ts.deep_view().take(i + 1)));
            } else {
                assert(r@ =~= join_spaces(pre) + seq![' '] + ts@[i as int].deep_view());
            }
        }
        i = i + 1;
    }
    proof {
        assert(ts.deep_view().take(ts@.len() as int) =~= ts.deep_view());
    }
    r
}

/// Converts a list of character vectors into strings.
pub fn charvecs_to_strings(v: &Vec<Vec<char>>) -> (r: Vec<String>)
    ensures
        r.deep_view() == v.deep_view(),
{
    let mut r: Vec<String> = Vec::new();
    let mut i: usize = 0;
    proof {
        assert(r.deep_view() =~= v.deep_view().take(0));
        assert(v.deep_view().len() == v@.len());
    }
    while i < v.len()
        invariant
            0 <= i <= v@.len(),
            v.deep_view().len() == v@.len(),
            r.deep_view() == v.deep_view().take(i as int),
        decreases v@.len() - i,
    {
        let s = crate::trusted::chars_to_string(&v[i]);
        proof {
            assert(v@[i as int].deep_view() == v.deep_view()[i as int]);
            assert(v@[i as int].deep_view() =~= v@[i as int]@);
        }
        r.push(s);
        proof {
            assert(v.deep_view().take(i + 1) =~= v.deep_view().take(i as int).push(
                v.deep_view()[i as int],
            ));
            assert(r.deep_view() =~~= v.deep_view().take(i + 1));
        }
        i = i + 1;
    }
    proof {
        assert(v.deep_view().take(v@.len() as int) =~= v.deep_view());
    }
    r
}

/// ASCII whitespace characters recognised by the engine.
pub open spec fn is_space(c: char) -> bool {
    c == ' ' || c == '\t' || c == '\n' || c == '\r'
}

/// Executable test for `is_space`.
pub fn space_char(c: char) -> (r: bool)
    ensures
        r == is_space(c),
{
    c == ' ' || c == '\t' || c == '\n' || c == '\r'
}

/// `s` with leading and trailing ASCII whitespace removed.
pub open spec fn trim_spec(s: Seq<char>) -> Seq<char>
    decreases s.len(),
{
    if s.len() == 0 {
        s
    } else if is_space(s[0]) {
        trim_spec(s.drop_first())
    } else if is_space(s.last()) {
        trim_spec(s.drop_last())
    } else {
        s
    }
}

/// Removes leading and trailing ASCII whitespace.
pub fn trim_chars(s: &Vec<char>) -> (r: Vec<char>)
    ensures
        r@ == trim_spec(s@),
{
    let mut a: usize = 0;
    let mut b: usize = s.len();
    proof {
        assert(s@.subrange(0, s@.len() as int) =~= s@);
    }
    while a < b && space_char(s[a])
        invariant
            0 <= a <= b <= s@.len(),
            trim_spec(s@) == trim_spec(s@.subrange(a as int, b as int)),
            b == s@.len(),
        decreases b - a,
    {
        proof {
            let cur = s@.subrange(a as int, b as int);
            assert(cur[0] == s@[a as int]);
            assert(cur.drop_first() =~= s@.subrange(a + 1, b as int));
        }
        a = a + 1;
    }
    while a < b && space_char(s[b - 1])
        invariant
            0 <= a <= b <= s@.len(),
            trim_spec(s@) == trim_spec(s@.subrange(a as int, b as int)),
            a < b ==> !is_space(s@[a as int]),
        decreases b - a,
    {
        proof {
            let cur = s@.subrange(a as int, b as int);
            assert(cur.last() == s@[b - 1]);
            assert(cur[0] == s@[a as int]);
            assert(cur.drop_last() =~= s@.subrange(a as int, b - 1));
        }
        b = b - 1;
    }
    proof {
        let cur = s@.subrange(a as int, b as int);
        if a < b {
            assert(cur[0] == s@[a as int]);
            assert(cur.last() == s@[b - 1]);
        }
        assert(trim_spec(cur) == cur);
    }
    subvec(s, a, b)
}

/// Whether `p` is a prefix of `s`.
pub open spec fn begins_with(s: Seq<char>, p: Seq<char>) -> bool {
    p.len() <= s.len() && (forall|i: int| 0 <= i < p.len() ==> #[trigger] s[i] == p[i])
}

/// A concatenation is a prefix exactly when its left part is one and its
/// right part follows it.
pub proof fn lemma_begins_concat(s: Seq<char>, a: Seq<char>, b: Seq<char>)
    ensures
        begins_with(s, a + b) <==> (begins_with(s, a) && begins_with(
            s.skip(a.len() as int),
            b,
        )),
{
    if begins_with(s, a + b) {
        assert forall|i: int| 0 <= i < a.len() implies #[trigger] s[i] == a[i] by {
            assert(s[i] == (a + b)[i]);
        }
        assert forall|i: int| 0 <= i < b.len() implies #[trigger] s.skip(a.len() as int)[i]
            == b[i] by {
            assert(s[a.len() + i] == (a + b)[a.len() + i]);
        }
    }
    if begins_with(s, a) && begins_with(s.skip(a.len() as int), b) {
        assert forall|i: int| 0 <= i < (a + b).len() implies #[trigger] s[i] == (a + b)[i] by {
            if i < a.len() {
            } else {
                assert(s.skip(a.len() as int)[i - a.len()] == b[i - a.len()]);
            }
        }
    }
}

/// A prefix of a prefix is a prefix.
pub proof fn lemma_begins_trans(s: Seq<char>, u: Seq<char>, p: Seq<char>)
    requires
        begins_with(s, u),
        begins_with(u, p),
    ensures
        begins_with(s, p),
{
    assert forall|i: int| 0 <= i < p.len() implies #[trigger] s[i] == p[i] by {
        assert(s[i] == u[i]);
        assert(u[i] == p[i]);
    }
}

/// The left part of a concatenation is a prefix of it.
pub proof fn lemma_begins_of_concat(a: Seq<char>, b: Seq<char>)
    ensures
        begins_with(a + b, a),
        (a + b).skip(a.len() as int) == b,
{
    assert forall|i: int| 0 <= i < a.len() implies #[trigger] (a + b)[i] == a[i] by {}
    assert((a + b).skip(a.len() as int) =~= b);
}

/// A prefix splits its sequence into itself and the remainder.
pub proof fn lemma_begins_decompose(s: Seq<char>, p: Seq<char>)
    requires
        begins_with(s, p),
    ensures
        s == p + s.skip(p.len() as int),
{
    assert(s =~= p + s.skip(p.len() as int));
}

/// Dropping characters twice drops their sum.
pub proof fn lemma_skip_skip(s: Seq<char>, m: int, n: int)
    requires
        0 <= m,
        0 <= n,
        m + n <= s.len(),
    ensures
        s.skip(m).skip(n) == s.skip(m + n),
{
    assert(s.skip(m).skip(n) =~= s.skip(m + n));
}

/// Equal left parts of equal concatenations leave equal right parts.
pub proof fn lemma_concat_cancel(a: Seq<char>, r1: Seq<char>, r2: Seq<char>)
    requires
        a + r1 == a + r2,
    ensures
        r1 == r2,
{
    assert(r1 =~= (a + r1).skip(a.len() as int));
    assert(r2 =~= (a + r2).skip(a.len() as int));
}

} // verus!
