//! Output assembly: sorting, deduplication and joining of feature tokens.
//!
//! The assembler turns the candidate token lists produced by the two
//! targeting modes into one deterministic, space-separated string: tokens are
//! sorted lexicographically, duplicates are collapsed, and the result is the
//! tokens joined with single spaces.

use crate::strutil::{
    chars_cmp, is_space, join_chars, join_spaces, lex_lt, lemma_lex_lt_asymmetric,
    lemma_lex_lt_connected, lemma_lex_lt_irreflexive, lemma_lex_lt_transitive,
};
use vstd::prelude::*;

verus! {

/// Inserts a token into a sorted, duplicate-free token list, keeping it
/// sorted and dropping the token if it is already present.
pub open spec fn insert_tok(t: Seq<char>, s: Seq<Seq<char>>) -> Seq<Seq<char>>
    decreases s.len(),
{
    if s.len() == 0 {
        seq![t]
    } else if lex_lt(t, s[0]) {
        seq![t] + s
    } else if t == s[0] {
        s
    } else {
        seq![s[0]] + insert_tok(t, s.drop_first())
    }
}

/// The sorted, deduplicated form of a token list.
pub open spec fn union_tokens(xs: Seq<Seq<char>>) -> Seq<Seq<char>>
    decreases xs.len(),
{
    if xs.len() == 0 {
        Seq::empty()
    } else {
        insert_tok(xs.last(), union_tokens(xs.drop_last()))
    }
}

/// The assembled output: tokens sorted, deduplicated, space-joined.
pub open spec fn union_spec(xs: Seq<Seq<char>>) -> Seq<char> {
    join_spaces(union_tokens(xs))
}

/// Strict ascending lexicographic order of a token list.
pub open spec fn strictly_sorted(s: Seq<Seq<char>>) -> bool {
    forall|i: int, j: int| 0 <= i < j < s.len() ==> lex_lt(s[i], s[j])
}

proof fn lemma_insert_tok_members(t: Seq<char>, s: Seq<Seq<char>>)
    ensures
        forall|x: Seq<char>|
            #[trigger] insert_tok(t, s).contains(x) <==> (x == t || s.contains(x)),
    decreases s.len(),
{
    if s.len() == 0 {
        let r = insert_tok(t, s);
        assert(r =~= seq![t]);
        assert(r[0] == t);
        assert forall|x: Seq<char>| #[trigger] r.contains(x) implies (x == t || s.contains(
            x,
        )) by {
            let i = choose|i: int| 0 <= i < r.len() && r[i] == x;
            assert(i == 0);
        }
        assert(r.contains(t));
    } else if lex_lt(t, s[0]) {
        let r = insert_tok(t, s);
        assert(r =~= seq![t] + s);
        assert(r[0] == t);
        assert forall|x: Seq<char>| (x == t || s.contains(x)) implies #[trigger] r.contains(x) by {
            if x == t {
                assert(r[0] == x);
            } else {
                let i = choose|i: int| 0 <= i < s.len() && s[i] == x;
                assert(r[i + 1] == x);
            }
        }
        assert forall|x: Seq<char>| #[trigger] r.contains(x) implies (x == t || s.contains(
            x,
        )) by {
            let i = choose|i: int| 0 <= i < r.len() && r[i] == x;
            if i > 0 {
                assert(s[i - 1] == x);
            }
        }
    } else if t == s[0] {
        assert(s.contains(s[0]));
    } else {
        let s1 = s.drop_first();
        lemma_insert_tok_members(t, s1);
        let r = insert_tok(t, s);
        assert(r =~= seq![s[0]] + insert_tok(t, s1));
        assert forall|x: Seq<char>| #[trigger] r.contains(x) implies (x == t || s.contains(
            x,
        )) by {
            let i = choose|i: int| 0 <= i < r.len() && r[i] == x;
            if i == 0 {
                assert(s[0] == x);
                assert(s.contains(x));
            } else {
                assert(insert_tok(t, s1)[i - 1] == x);
                assert(insert_tok(t, s1).contains(x));
                if x != t {
                    assert(s1.contains(x));
                    let j = choose|j: int| 0 <= j < s1.len() && s1[j] == x;
                    assert(s[j + 1] == s1[j]);
                    assert(s.contains(x));
                }
            }
        }
        assert forall|x: Seq<char>| (x == t || s.contains(x)) implies #[trigger] r.contains(x) by {
            if x == t {
                assert(insert_tok(t, s1).contains(x));
                let j = choose|j: int| 0 <= j < insert_tok(t, s1).len() && insert_tok(t, s1)[j]
                    == x;
                assert(r[j + 1] == x);
            } else {
                let i = choose|i: int| 0 <= i < s.len() && s[i] == x;
                if i == 0 {
                    assert(r[0] == x);
                } else {
                    assert(s1[i - 1] == s[i]);
                    assert(s1.contains(x));
                    assert(insert_tok(t, s1).contains(x));
                    let j = choose|j: int| 0 <= j < insert_tok(t, s1).len() && insert_tok(t, s1)[j]
                        == x;
                    assert(r[j + 1] == x);
                }
            }
        }
    }
}

proof fn lemma_insert_tok_sorted(t: Seq<char>, s: Seq<Seq<char>>)
    requires
        strictly_sorted(s),
    ensures
        strictly_sorted(insert_tok(t, s)),
    decreases s.len(),
{
    if s.len() == 0 {
    } else if lex_lt(t, s[0]) {
        let r = seq![t] + s;
        assert forall|i: int, j: int| 0 <= i < j < r.len() implies lex_lt(r[i], r[j]) by {
            if i == 0 {
                if j > 1 {
                    lemma_lex_lt_transitive(t, s[0], s[j - 1]);
                }
            }
        }
    } else if t == s[0] {
    } else {
        assert(!lex_lt(t, s[0]) && t != s[0]);
        lemma_lex_lt_connected(t, s[0]);
        assert(lex_lt(s[0], t));
        assert forall|i: int, j: int|
            0 <= i < j < s.drop_first().len() implies lex_lt(
            s.drop_first()[i],
            s.drop_first()[j],
        ) by {
            assert(s[i + 1] == s.drop_first()[i]);
            assert(s[j + 1] == s.drop_first()[j]);
        }
        lemma_insert_tok_sorted(t, s.drop_first());
        lemma_insert_tok_members(t, s.drop_first());
        let rec = insert_tok(t, s.drop_first());
        let r = seq![s[0]] + rec;
        assert forall|i: int, j: int| 0 <= i < j < r.len() implies lex_lt(r[i], r[j]) by {
            if i == 0 {
                assert(rec.contains(rec[j - 1]));
                if rec[j - 1] == t {
                    assert(lex_lt(s[0], t));
                } else {
                    assert(s.drop_first().contains(rec[j - 1]));
                    let k = choose|k: int|
                        0 <= k < s.drop_first().len() && s.drop_first()[k] == rec[j - 1];
                    assert(s[k + 1] == rec[j - 1]);
                    assert(lex_lt(s[0], s[k + 1]));
                }
            } else {
                assert(lex_lt(rec[i - 1], rec[j - 1]));
            }
        }
    }
}

/// The assembled token list is strictly ascending; strict order also means
/// it holds no duplicate.
pub proof fn lemma_union_tokens_sorted(xs: Seq<Seq<char>>)
    ensures
        strictly_sorted(union_tokens(xs)),
    decreases xs.len(),
{
    if xs.len() > 0 {
        lemma_union_tokens_sorted(xs.drop_last());
        lemma_insert_tok_sorted(xs.last(), union_tokens(xs.drop_last()));
    }
}

/// The assembled token list holds exactly the input tokens: none is lost,
/// none is invented.
pub proof fn lemma_union_tokens_members(xs: Seq<Seq<char>>)
    ensures
        forall|x: Seq<char>| union_tokens(xs).contains(x) <==> xs.contains(x),
    decreases xs.len(),
{
    if xs.len() > 0 {
        lemma_union_tokens_members(xs.drop_last());
        lemma_insert_tok_members(xs.last(), union_tokens(xs.drop_last()));
        assert(union_tokens(xs) == insert_tok(xs.last(), union_tokens(xs.drop_last())));
        assert forall|x: Seq<char>| xs.contains(x) implies #[trigger] union_tokens(xs).contains(
            x,
        ) by {
            let i = choose|i: int| 0 <= i < xs.len() && xs[i] == x;
            if i < xs.len() - 1 {
                assert(xs.drop_last()[i] == xs[i]);
                assert(xs.drop_last().contains(x));
                assert(union_tokens(xs.drop_last()).contains(x));
            } else {
                assert(x == xs.last());
            }
            assert(insert_tok(xs.last(), union_tokens(xs.drop_last())).contains(x));
        }
        assert forall|x: Seq<char>| #[trigger] union_tokens(xs).contains(x) implies xs.contains(
            x,
        ) by {
            assert(insert_tok(xs.last(), union_tokens(xs.drop_last())).contains(x));
            if x != xs.last() {
                assert(union_tokens(xs.drop_last()).contains(x));
                assert(xs.drop_last().contains(x));
                let i = choose|i: int| 0 <= i < xs.drop_last().len() && xs.drop_last()[i] == x;
                assert(xs[i] == xs.drop_last()[i]);
            } else {
                assert(xs[xs.len() - 1] == x);
            }
        }
    }
}

/// Inserts one token into a sorted, duplicate-free accumulator.
fn insert_token(acc: &mut Vec<Vec<char>>, t: Vec<char>)
    ensures
        final(acc).deep_view() == insert_tok(t@, old(acc).deep_view()),
{
    let ghost s0 = old(acc).deep_view();
    let mut j: usize = 0;
    proof {
        assert(s0.skip(0) =~= s0);
        assert(s0.take(0) + insert_tok(t@, s0.skip(0)) =~= insert_tok(t@, s0));
    }
    loop
        invariant
            s0 == old(acc).deep_view(),
            0 <= j <= acc.len(),
            acc.deep_view() == s0,
            acc.deep_view().len() == acc.len(),
            insert_tok(t@, s0) == s0.take(j as int) + insert_tok(t@, s0.skip(j as int)),
        decreases acc.len() - j,
    {
        if j == acc.len() {
            proof {
                assert(s0.skip(j as int) =~= Seq::<Seq<char>>::empty());
                assert(insert_tok(t@, s0.skip(j as int)) == seq![t@]);
            }
            acc.push(t);
            proof {
                assert(acc.deep_view() =~~= s0.take(s0.len() as int) + seq![t@]);
                assert(s0.take(s0.len() as int) =~= s0);
            }
            return ;
        }
        let c = chars_cmp(&t, &acc[j]);
        proof {
            assert(acc@[j as int].deep_view() == s0[j as int]);
            assert(acc@[j as int].deep_view() =~= acc@[j as int]@);
            assert(s0.skip(j as int)[0] == s0[j as int]);
            assert(s0.skip(j as int).len() > 0);
        }
        if c == -1 {
            proof {
                assert(insert_tok(t@, s0.skip(j as int)) == seq![t@] + s0.skip(j as int));
            }
            acc.insert(j, t);
            proof {
                assert(acc.deep_view() =~~= s0.take(j as int) + (seq![t@] + s0.skip(j as int)));
            }
            return ;
        } else if c == 0 {
            proof {
                assert(insert_tok(t@, s0.skip(j as int)) == s0.skip(j as int));
                assert(s0.take(j as int) + s0.skip(j as int) =~= s0);
            }
            return ;
        }
        proof {
            assert(!lex_lt(t@, s0[j as int]) && t@ != s0[j as int]);
            lemma_lex_lt_connected(t@, s0[j as int]);
            assert(lex_lt(s0[j as int], t@));
            assert(insert_tok(t@, s0.skip(j as int)) == seq![s0[j as int]] + insert_tok(
                t@,
                s0.skip(j as int).drop_first(),
            ));
            assert(s0.skip(j as int).drop_first() =~= s0.skip(j + 1));
            assert(s0.take(j + 1) =~= s0.take(j as int) + seq![s0[j as int]]);
            assert(s0.take(j + 1) + insert_tok(t@, s0.skip(j + 1)) =~= s0.take(j as int)
                + insert_tok(t@, s0.skip(j as int)));
        }
        j = j + 1;
    }
}

/// Sorts and deduplicates a token list.
pub fn sort_dedup(xs: Vec<Vec<char>>) -> (r: Vec<Vec<char>>)
    ensures
        r.deep_view() == union_tokens(xs.deep_view()),
{
    let mut r: Vec<Vec<char>> = Vec::new();
    let mut i: usize = 0;
    proof {
        assert(xs.deep_view().take(0) =~= Seq::<Seq<char>>::empty());
    }
    while i < xs.len()
        invariant
            0 <= i <= xs.len(),
            xs.deep_view().len() == xs.len(),
            r.deep_view() == union_tokens(xs.deep_view().take(i as int)),
        decreases xs.len() - i,
    {
        let t = crate::strutil::subvec(&xs[i], 0, xs[i].len());
        proof {
            assert(xs@[i as int].deep_view() == xs.deep_view()[i as int]);
            assert(xs@[i as int]@.subrange(0, xs@[i as int]@.len() as int) =~= xs@[i as
                int].deep_view());
        }
        insert_token(&mut r, t);
        proof {
            let pre = xs.deep_view().take(i as int);
            assert(xs.deep_view().take(i + 1).drop_last() =~= pre);
            assert(xs.deep_view().take(i + 1).last() == xs.deep_view()[i as int]);
        }
        i = i + 1;
    }
    proof {
        assert(xs.deep_view().take(xs.len() as int) =~= xs.deep_view());
    }
    r
}

/// Sorts, deduplicates and joins the given tokens with single spaces.
pub fn assemble_chars(xs: Vec<Vec<char>>) -> (r: Vec<char>)
    ensures
        r@ == union_spec(xs.deep_view()),
{
    let sorted = sort_dedup(xs);
    join_chars(&sorted)
}

/// Inserts a token into a sorted token list, keeping duplicates.
pub open spec fn sort_insert(t: Seq<char>, s: Seq<Seq<char>>) -> Seq<Seq<char>>
    decreases s.len(),
{
    if s.len() == 0 {
        seq![t]
    } else if lex_lt(t, s[0]) {
        seq![t] + s
    } else {
        seq![s[0]] + sort_insert(t, s.drop_first())
    }
}

/// The sorted form of a token list, duplicates kept.
pub open spec fn sort_tokens(xs: Seq<Seq<char>>) -> Seq<Seq<char>>
    decreases xs.len(),
{
    if xs.len() == 0 {
        Seq::empty()
    } else {
        sort_insert(xs.last(), sort_tokens(xs.drop_last()))
    }
}

/// Inserts one token into a sorted accumulator, keeping duplicates.
fn sort_insert_exec(acc: &mut Vec<Vec<char>>, t: Vec<char>)
    ensures
        final(acc).deep_view() == sort_insert(t@, old(acc).deep_view()),
{
    let ghost s0 = old(acc).deep_view();
    let mut j: usize = 0;
    proof {
        assert(s0.skip(0) =~= s0);
        assert(s0.take(0) + sort_insert(t@, s0.skip(0)) =~= sort_insert(t@, s0));
    }
    loop
        invariant
            s0 == old(acc).deep_view(),
            0 <= j <= acc.len(),
            acc.deep_view() == s0,
            acc.deep_view().len() == acc.len(),
            sort_insert(t@, s0) == s0.take(j as int) + sort_insert(t@, s0.skip(j as int)),
        decreases acc.len() - j,
    {
        if j == acc.len() {
            proof {
                assert(s0.skip(j as int) =~= Seq::<Seq<char>>::empty());
                assert(sort_insert(t@, s0.skip(j as int)) == seq![t@]);
            }
            acc.push(t);
            proof {
                assert(acc.deep_view() =~~= s0.take(s0.len() as int) + seq![t@]);
                assert(s0.take(s0.len() as int) =~= s0);
            }
            return ;
        }
        let c = chars_cmp(&t, &acc[j]);
        proof {
            assert(acc@[j as int].deep_view() == s0[j as int]);
            assert(acc@[j as int].deep_view() =~= acc@[j as int]@);
            assert(s0.skip(j as int)[0] == s0[j as int]);
            assert(s0.skip(j as int).len() > 0);
        }
        if c == -1 {
            proof {
                assert(sort_insert(t@, s0.skip(j as int)) == seq![t@] + s0.skip(j as int));
            }
            acc.insert(j, t);
            proof {
                assert(acc.deep_view() =~~= s0.take(j as int) + (seq![t@] + s0.skip(j as int)));
            }
            return ;
        }
        proof {
            assert(!lex_lt(t@, s0[j as int]));
            assert(sort_insert(t@, s0.skip(j as int)) == seq![s0[j as int]] + sort_insert(
                t@,
                s0.skip(j as int).drop_first(),
            ));
            assert(s0.skip(j as int).drop_first() =~= s0.skip(j + 1));
            assert(s0.take(j + 1) =~= s0.take(j as int) + seq![s0[j as int]]);
            assert(s0.take(j + 1) + sort_insert(t@, s0.skip(j + 1)) =~= s0.take(j as int)
                + sort_insert(t@, s0.skip(j as int)));
        }
        j = j + 1;
    }
}

/// Sorts a token list lexicographically, keeping duplicates.
pub fn sort_strings(xs: &Vec<String>) -> (r: Vec<String>)
    ensures
        r.deep_view() == sort_tokens(xs.deep_view()),
{
    let mut acc: Vec<Vec<char>> = Vec::new();
    let mut i: usize = 0;
    proof {
        assert(xs.deep_view().take(0) =~= Seq::<Seq<char>>::empty());
    }
    while i < xs.len()
        invariant
            0 <= i <= xs.len(),
            xs.deep_view().len() == xs.len(),
            acc.deep_view() == sort_tokens(xs.deep_view().take(i as int)),
        decreases xs.len() - i,
    {
        let t = crate::strutil::to_chars(xs[i].as_str());
        proof {
            assert(xs@[i as int].deep_view() == xs.deep_view()[i as int]);
        }
        sort_insert_exec(&mut acc, t);
        proof {
            let pre = xs.deep_view().take(i as int);
            assert(xs.deep_view().take(i + 1).drop_last() =~= pre);
            assert(xs.deep_view().take(i + 1).last() == xs.deep_view()[i as int]);
        }
        i = i + 1;
    }
    proof {
        assert(xs.deep_view().take(xs.len() as int) =~= xs.deep_view());
    }
    crate::strutil::charvecs_to_strings(&acc)
}

/// If every token is non-empty and free of whitespace, the assembled output
/// has no leading or trailing whitespace.
pub proof fn lemma_join_no_edge_spaces(ts: Seq<Seq<char>>)
    requires
        forall|i: int| 0 <= i < ts.len() ==> ts[i].len() > 0,
        forall|i: int, k: int|
            0 <= i < ts.len() && 0 <= k < ts[i].len() ==> !is_space(#[trigger] ts[i][k]),
    ensures
        ts.len() > 0 ==> join_spaces(ts).len() > 0,
        join_spaces(ts).len() > 0 ==> !is_space(join_spaces(ts)[0]) && !is_space(
            join_spaces(ts).last(),
        ),
    decreases ts.len(),
{
    if ts.len() == 0 {
    } else if ts.len() == 1 {
        assert(join_spaces(ts) == ts[0]);
        assert(!is_space(ts[0][0]));
        assert(!is_space(ts[0][ts[0].len() - 1]));
    } else {
        assert forall|i: int, k: int|
            0 <= i < ts.drop_first().len() && 0 <= k
                < ts.drop_first()[i].len() implies !is_space(#[trigger] ts.drop_first()[i][k]) by {
            assert(ts.drop_first()[i] == ts[i + 1]);
        }
        assert forall|i: int| 0 <= i < ts.drop_first().len() implies ts.drop_first()[i].len()
            > 0 by {
            assert(ts.drop_first()[i] == ts[i + 1]);
        }
        lemma_join_no_edge_spaces(ts.drop_first());
        let r = ts[0] + seq![' '] + join_spaces(ts.drop_first());
        assert(r[0] == ts[0][0]);
        assert(r.last() == join_spaces(ts.drop_first()).last());
    }
}

} // verus!
