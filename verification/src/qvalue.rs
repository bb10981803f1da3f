//! RFC 7231 quality-value parsing.
//!
//! A header such as `*/*;q=0.3, text/plain;q=0.7, text/html` is split at
//! commas; each entry is split at `;q=` and trimmed; a missing or
//! unreadable weight defaults to 1. Entries are sorted by descending
//! weight with a stable sort: entries of equal weight keep their input
//! order.

use crate::num::{dec_cmp, dec_lt, dec_normalized, make_dec, parse_dec, parse_dec_chars, Dec, DecV};
use crate::strutil::{split_chars, split_spec, trim_chars, trim_spec};
use vstd::prelude::*;

verus! {

/// The default weight: one.
pub open spec fn one_dec() -> DecV {
    DecV { neg: false, digits: seq![1u8], exp: 1 }
}

/// The token and weight of one comma-separated entry.
pub open spec fn qv_item(part: Seq<char>) -> (Seq<char>, DecV) {
    let segs = split_spec(part, seq![';', 'q', '=']);
    let v = trim_spec(segs[0]);
    if segs.len() >= 2 {
        match parse_dec(trim_spec(segs[1])) {
            Option::Some(d) => (v, d),
            Option::None => (v, one_dec()),
        }
    } else {
        (v, one_dec())
    }
}

/// Inserts an entry behind every entry of equal or higher weight, keeping
/// the list sorted by descending weight and the insertion stable.
pub open spec fn qv_insert(x: (Seq<char>, DecV), s: Seq<(Seq<char>, DecV)>) -> Seq<
    (Seq<char>, DecV),
>
    decreases s.len(),
{
    if s.len() == 0 {
        seq![x]
    } else if dec_lt(s[0].1, x.1) {
        seq![x] + s
    } else {
        seq![s[0]] + qv_insert(x, s.drop_first())
    }
}

/// The entries sorted by descending weight, stably.
pub open spec fn qv_sort(items: Seq<(Seq<char>, DecV)>) -> Seq<(Seq<char>, DecV)>
    decreases items.len(),
{
    if items.len() == 0 {
        Seq::empty()
    } else {
        qv_insert(items.last(), qv_sort(items.drop_last()))
    }
}

/// One parsed entry per comma-separated part of a header.
pub open spec fn qv_items(s: Seq<char>) -> Seq<(Seq<char>, DecV)> {
    split_spec(s, seq![',']).map_values(|p: Seq<char>| qv_item(p))
}

/// The tokens of a quality-value header, sorted by descending weight.
pub open spec fn qvalue_spec(s: Seq<char>) -> Seq<Seq<char>> {
    qv_sort(qv_items(s)).map_values(|it: (Seq<char>, DecV)| it.0)
}

/// All weights in an entry list are well-formed decimals.
pub open spec fn qv_all_normalized(s: Seq<(Seq<char>, DecV)>) -> bool {
    forall|i: int| 0 <= i < s.len() ==> dec_normalized((#[trigger] s[i]).1)
}

/// Inserts one parsed entry into the accumulator, which is sorted by
/// descending weight.
fn qv_insert_exec(acc: &mut Vec<(Vec<char>, Dec)>, tok: Vec<char>, q: Dec)
    requires
        dec_normalized(q@),
        qv_all_normalized(old(acc).deep_view()),
    ensures
        final(acc).deep_view() == qv_insert((tok@, q@), old(acc).deep_view()),
        qv_all_normalized(final(acc).deep_view()),
{
    let ghost s0 = old(acc).deep_view();
    let ghost x = (tok@, q@);
    let mut j: usize = 0;
    proof {
        assert(s0.skip(0) =~= s0);
        assert(s0.take(0) + qv_insert(x, s0.skip(0)) =~= qv_insert(x, s0));
    }
    loop
        invariant
            s0 == old(acc).deep_view(),
            x == (tok@, q@),
            dec_normalized(q@),
            qv_all_normalized(s0),
            0 <= j <= acc.len(),
            acc.deep_view() == s0,
            acc.deep_view().len() == acc.len(),
            qv_insert(x, s0) == s0.take(j as int) + qv_insert(x, s0.skip(j as int)),
        decreases acc.len() - j,
    {
        if j == acc.len() {
            proof {
                assert(s0.skip(j as int) =~= Seq::<(Seq<char>, DecV)>::empty());
                assert(qv_insert(x, s0.skip(j as int)) == seq![x]);
            }
            acc.push((tok, q));
            proof {
                assert(acc.deep_view() =~~= s0.take(s0.len() as int) + seq![x]);
                assert(s0.take(s0.len() as int) =~= s0);
                assert(qv_all_normalized(acc.deep_view()));
            }
            return ;
        }
        proof {
            assert(acc@[j as int].deep_view() == s0[j as int]);
            assert(acc@[j as int].1@ == s0[j as int].1);
            assert(s0.skip(j as int)[0] == s0[j as int]);
            assert(s0.skip(j as int).len() > 0);
        }
        let c = dec_cmp(&acc[j].1, &q);
        if c == -1 {
            proof {
                assert(dec_lt(s0[j as int].1, x.1));
                assert(qv_insert(x, s0.skip(j as int)) == seq![x] + s0.skip(j as int));
            }
            acc.insert(j, (tok, q));
            proof {
                assert(acc.deep_view() =~~= s0.take(j as int) + (seq![x] + s0.skip(j as int)));
                assert(qv_all_normalized(acc.deep_view()));
            }
            return ;
        }
        proof {
            assert(!dec_lt(s0[j as int].1, x.1));
            assert(qv_insert(x, s0.skip(j as int)) == seq![s0[j as int]] + qv_insert(
                x,
                s0.skip(j as int).drop_first(),
            ));
            assert(s0.skip(j as int).drop_first() =~= s0.skip(j + 1));
            assert(s0.take(j + 1) =~= s0.take(j as int) + seq![s0[j as int]]);
            assert(s0.take(j + 1) + qv_insert(x, s0.skip(j + 1)) =~= s0.take(j as int) + qv_insert(
                x,
                s0.skip(j as int),
            ));
        }
        j = j + 1;
    }
}

/// Parses a quality-value header into its tokens, highest weight first.
pub fn parse_q_value(value: &str) -> (r: Vec<String>)
    ensures
        r.deep_view() == qvalue_spec(value@),
{
    let chars = crate::strutil::to_chars(value);
    let mut comma: Vec<char> = Vec::new();
    comma.push(',');
    let mut qsep: Vec<char> = Vec::new();
    qsep.push(';');
    qsep.push('q');
    qsep.push('=');
    proof {
        assert(comma@ =~= seq![',']);
        assert(qsep@ =~= seq![';', 'q', '=']);
    }
    let parts = split_chars(&chars, &comma);
    let ghost items = qv_items(value@);
    let mut acc: Vec<(Vec<char>, Dec)> = Vec::new();
    let mut i: usize = 0;
    proof {
        assert(items.take(0) =~= Seq::<(Seq<char>, DecV)>::empty());
        assert(acc.deep_view() =~= qv_sort(items.take(0)));
    }
    while i < parts.len()
        invariant
            qsep@ == seq![';', 'q', '='],
            parts.deep_view() == split_spec(value@, seq![',']),
            items == qv_items(value@),
            parts.deep_view().len() == parts.len(),
            items.len() == parts.len(),
            0 <= i <= parts.len(),
            acc.deep_view() == qv_sort(items.take(i as int)),
            qv_all_normalized(acc.deep_view()),
        decreases parts.len() - i,
    {
        proof {
            assert(parts@[i as int].deep_view() == parts.deep_view()[i as int]);
            assert(parts@[i as int].deep_view() =~= parts@[i as int]@);
        }
        let segs = split_chars(&parts[i], &qsep);
        proof {
            assert(segs.deep_view() == split_spec(parts.deep_view()[i as int], seq![';', 'q', '=']));
            assert(segs.deep_view().len() == segs@.len());
            assert(segs.deep_view().len() > 0);
            assert(segs@[0].deep_view() == segs.deep_view()[0]);
            assert(segs@[0].deep_view() =~= segs@[0]@);
        }
        let tok = trim_chars(&segs[0]);
        let q: Dec = if segs.len() >= 2 {
            proof {
                assert(segs@[1].deep_view() == segs.deep_view()[1]);
                assert(segs@[1].deep_view() =~= segs@[1]@);
            }
            let qtext = trim_chars(&segs[1]);
            match parse_dec_chars(&qtext) {
                Some(d) => d,
                None => make_dec(false, one_digit(), 1),
            }
        } else {
            make_dec(false, one_digit(), 1)
        };
        proof {
            assert(one_dec() == crate::num::norm_dec(false, seq![1u8], 1)) by {
                assert(crate::num::strip_lead(seq![1u8]) =~= seq![1u8]);
                assert(crate::num::strip_trail(seq![1u8]) =~= seq![1u8]);
            }
            assert((tok@, q@) == qv_item(parts.deep_view()[i as int]));
            assert(items[i as int] == qv_item(parts.deep_view()[i as int]));
        }
        qv_insert_exec(&mut acc, tok, q);
        proof {
            assert(items.take(i + 1).drop_last() =~= items.take(i as int));
            assert(items.take(i + 1).last() == items[i as int]);
        }
        i = i + 1;
    }
    proof {
        assert(items.take(items.len() as int) =~= items);
    }
    let mut toks: Vec<String> = Vec::new();
    let mut k: usize = 0;
    proof {
        assert(toks.deep_view() =~= qvalue_spec(value@).take(0));
        assert(qvalue_spec(value@).len() == acc.len());
    }
    while k < acc.len()
        invariant
            acc.deep_view() == qv_sort(qv_items(value@)),
            acc.deep_view().len() == acc.len(),
            qvalue_spec(value@).len() == acc.len(),
            0 <= k <= acc.len(),
            toks.deep_view() == qvalue_spec(value@).take(k as int),
        decreases acc.len() - k,
    {
        let s = crate::trusted::chars_to_string(&acc[k].0);
        proof {
            assert(acc@[k as int].deep_view() == acc.deep_view()[k as int]);
            assert(acc@[k as int].0.deep_view() == acc.deep_view()[k as int].0);
            assert(acc@[k as int].0.deep_view() =~= acc@[k as int].0@);
            assert(qvalue_spec(value@)[k as int] == acc.deep_view()[k as int].0);
        }
        toks.push(s);
        proof {
            assert(qvalue_spec(value@).take(k + 1) =~= qvalue_spec(value@).take(k as int).push(
                qvalue_spec(value@)[k as int],
            ));
            assert(toks.deep_view() =~~= qvalue_spec(value@).take(k + 1));
        }
        k = k + 1;
    }
    proof {
        assert(qvalue_spec(value@).take(acc.len() as int) =~= qvalue_spec(value@));
    }
    toks
}

/// The single digit one.
fn one_digit() -> (r: Vec<u8>)
    ensures
        r@ == seq![1u8],
{
    let mut v: Vec<u8> = Vec::new();
    v.push(1);
    proof {
        assert(v@ =~= seq![1u8]);
    }
    v
}


/// The subsequence of entries carrying one given weight, in order.
pub open spec fn entries_of_weight(s: Seq<(Seq<char>, DecV)>, q: DecV) -> Seq<(Seq<char>, DecV)>
    decreases s.len(),
{
    if s.len() == 0 {
        Seq::empty()
    } else {
        entries_of_weight(s.drop_last(), q) + (if s.last().1 == q {
            seq![s.last()]
        } else {
            Seq::<(Seq<char>, DecV)>::empty()
        })
    }
}

proof fn lemma_eow_add(a: Seq<(Seq<char>, DecV)>, b: Seq<(Seq<char>, DecV)>, q: DecV)
    ensures
        entries_of_weight(a + b, q) == entries_of_weight(a, q) + entries_of_weight(b, q),
    decreases b.len(),
{
    if b.len() == 0 {
        assert(a + b =~= a);
        assert(entries_of_weight(b, q) =~= Seq::<(Seq<char>, DecV)>::empty());
        assert(entries_of_weight(a, q) + entries_of_weight(b, q) =~= entries_of_weight(a, q));
    } else {
        lemma_eow_add(a, b.drop_last(), q);
        assert((a + b).drop_last() =~= a + b.drop_last());
        assert((a + b).last() == b.last());
        assert((entries_of_weight(a, q) + entries_of_weight(b.drop_last(), q)) + (if b.last().1
            == q {
            seq![b.last()]
        } else {
            Seq::<(Seq<char>, DecV)>::empty()
        }) =~= entries_of_weight(a, q) + entries_of_weight(b, q));
    }
}

/// Entries sorted by descending weight: an earlier entry's weight is never
/// below a later entry's.
pub open spec fn qv_desc(s: Seq<(Seq<char>, DecV)>) -> bool {
    forall|i: int, j: int|
        0 <= i < j < s.len() ==> !dec_lt((#[trigger] s[i]).1, (#[trigger] s[j]).1)
}

proof fn lemma_qv_insert_members(x: (Seq<char>, DecV), s: Seq<(Seq<char>, DecV)>)
    ensures
        forall|y: (Seq<char>, DecV)|
            #[trigger] qv_insert(x, s).contains(y) <==> (y == x || s.contains(y)),
    decreases s.len(),
{
    let r = qv_insert(x, s);
    if s.len() == 0 {
        assert(r =~= seq![x]);
        assert(r[0] == x);
        assert forall|y: (Seq<char>, DecV)| #[trigger] r.contains(y) implies (y == x || s.contains(
            y,
        )) by {
            let i = choose|i: int| 0 <= i < r.len() && r[i] == y;
            assert(i == 0);
        }
        assert(r.contains(x));
    } else if dec_lt(s[0].1, x.1) {
        assert(r =~= seq![x] + s);
        assert(r[0] == x);
        assert forall|y: (Seq<char>, DecV)| (y == x || s.contains(y)) implies #[trigger] r.contains(
            y,
        ) by {
            if y == x {
                assert(r[0] == y);
            } else {
                let i = choose|i: int| 0 <= i < s.len() && s[i] == y;
                assert(r[i + 1] == y);
            }
        }
        assert forall|y: (Seq<char>, DecV)| #[trigger] r.contains(y) implies (y == x || s.contains(
            y,
        )) by {
            let i = choose|i: int| 0 <= i < r.len() && r[i] == y;
            if i > 0 {
                assert(s[i - 1] == y);
            }
        }
    } else {
        let s1 = s.drop_first();
        lemma_qv_insert_members(x, s1);
        assert(r =~= seq![s[0]] + qv_insert(x, s1));
        assert forall|y: (Seq<char>, DecV)| #[trigger] r.contains(y) implies (y == x || s.contains(
            y,
        )) by {
            let i = choose|i: int| 0 <= i < r.len() && r[i] == y;
            if i == 0 {
                assert(s[0] == y);
                assert(s.contains(y));
            } else {
                assert(qv_insert(x, s1)[i - 1] == y);
                assert(qv_insert(x, s1).contains(y));
                if y != x {
                    assert(s1.contains(y));
                    let j = choose|j: int| 0 <= j < s1.len() && s1[j] == y;
                    assert(s[j + 1] == s1[j]);
                    assert(s.contains(y));
                }
            }
        }
        assert forall|y: (Seq<char>, DecV)| (y == x || s.contains(y)) implies #[trigger] r.contains(
            y,
        ) by {
            if y == x || s1.contains(y) {
                assert(qv_insert(x, s1).contains(y));
                let j = choose|j: int| 0 <= j < qv_insert(x, s1).len() && qv_insert(x, s1)[j] == y;
                assert(r[j + 1] == y);
            } else {
                let i = choose|i: int| 0 <= i < s.len() && s[i] == y;
                if i == 0 {
                    assert(r[0] == y);
                } else {
                    assert(s1[i - 1] == s[i]);
                    assert(s1.contains(y));
                }
            }
        }
    }
}

proof fn lemma_qv_insert_desc(x: (Seq<char>, DecV), s: Seq<(Seq<char>, DecV)>)
    requires
        qv_desc(s),
    ensures
        qv_desc(qv_insert(x, s)),
    decreases s.len(),
{
    let r = qv_insert(x, s);
    if s.len() == 0 {
    } else if dec_lt(s[0].1, x.1) {
        assert(r =~= seq![x] + s);
        assert forall|i: int, j: int| 0 <= i < j < r.len() implies !dec_lt(
            (#[trigger] r[i]).1,
            (#[trigger] r[j]).1,
        ) by {
            if i == 0 {
                assert(r[j] == s[j - 1]);
                if dec_lt(x.1, s[j - 1].1) {
                    crate::num::lemma_dec_lt_trans(s[0].1, x.1, s[j - 1].1);
                    if j == 1 {
                        crate::num::lemma_dec_lt_irreflexive(s[0].1);
                    }
                }
            } else {
                assert(r[i] == s[i - 1]);
                assert(r[j] == s[j - 1]);
            }
        }
    } else {
        let s1 = s.drop_first();
        assert forall|i: int, j: int| 0 <= i < j < s1.len() implies !dec_lt(
            (#[trigger] s1[i]).1,
            (#[trigger] s1[j]).1,
        ) by {
            assert(s1[i] == s[i + 1]);
            assert(s1[j] == s[j + 1]);
        }
        lemma_qv_insert_desc(x, s1);
        lemma_qv_insert_members(x, s1);
        let rec = qv_insert(x, s1);
        assert(r =~= seq![s[0]] + rec);
        assert forall|i: int, j: int| 0 <= i < j < r.len() implies !dec_lt(
            (#[trigger] r[i]).1,
            (#[trigger] r[j]).1,
        ) by {
            if i == 0 {
                assert(r[j] == rec[j - 1]);
                assert(rec.contains(rec[j - 1]));
                if rec[j - 1] == x {
                    assert(!dec_lt(s[0].1, x.1));
                } else {
                    assert(s1.contains(rec[j - 1]));
                    let k = choose|k: int| 0 <= k < s1.len() && s1[k] == rec[j - 1];
                    assert(s[k + 1] == s1[k]);
                }
            } else {
                assert(r[i] == rec[i - 1]);
                assert(r[j] == rec[j - 1]);
            }
        }
    }
}

/// Higher weights precede lower weights: the sorted entry list is
/// descending in weight.
pub proof fn lemma_qv_sort_desc(items: Seq<(Seq<char>, DecV)>)
    ensures
        qv_desc(qv_sort(items)),
    decreases items.len(),
{
    if items.len() > 0 {
        lemma_qv_sort_desc(items.drop_last());
        lemma_qv_insert_desc(items.last(), qv_sort(items.drop_last()));
    }
}


proof fn lemma_no_match_eow_empty(s: Seq<(Seq<char>, DecV)>, q: DecV)
    requires
        forall|i: int| 0 <= i < s.len() ==> (#[trigger] s[i]).1 != q,
    ensures
        entries_of_weight(s, q) == Seq::<(Seq<char>, DecV)>::empty(),
    decreases s.len(),
{
    if s.len() == 0 {
        assert(entries_of_weight(s, q) =~= Seq::<(Seq<char>, DecV)>::empty());
    } else {
        assert forall|i: int|
            0 <= i < s.drop_last().len() implies (#[trigger] s.drop_last()[i]).1 != q by {
            assert(s.drop_last()[i] == s[i]);
        }
        lemma_no_match_eow_empty(s.drop_last(), q);
        assert(s.last().1 != q);
        assert(entries_of_weight(s, q) =~= Seq::<(Seq<char>, DecV)>::empty());
    }
}

proof fn lemma_eow_singleton(x: (Seq<char>, DecV), q: DecV)
    ensures
        x.1 == q ==> entries_of_weight(seq![x], q) == seq![x],
        x.1 != q ==> entries_of_weight(seq![x], q) == Seq::<(Seq<char>, DecV)>::empty(),
{
    assert(seq![x].drop_last() =~= Seq::<(Seq<char>, DecV)>::empty());
    assert(seq![x].last() == x);
    assert(entries_of_weight(Seq::<(Seq<char>, DecV)>::empty(), q) =~= Seq::<
        (Seq<char>, DecV),
    >::empty());
    assert(entries_of_weight(seq![x].drop_last(), q) =~= Seq::<(Seq<char>, DecV)>::empty());
    if x.1 == q {
        assert(entries_of_weight(seq![x], q) =~= seq![x]);
    } else {
        assert(entries_of_weight(seq![x], q) =~= Seq::<(Seq<char>, DecV)>::empty());
    }
}

proof fn lemma_qv_insert_eow(x: (Seq<char>, DecV), s: Seq<(Seq<char>, DecV)>, q: DecV)
    requires
        qv_desc(s),
    ensures
        x.1 == q ==> entries_of_weight(qv_insert(x, s), q) == entries_of_weight(s, q).push(x),
        x.1 != q ==> entries_of_weight(qv_insert(x, s), q) == entries_of_weight(s, q),
    decreases s.len(),
{
    let r = qv_insert(x, s);
    lemma_eow_singleton(x, q);
    if s.len() == 0 {
        assert(r =~= seq![x]);
        assert(entries_of_weight(s, q) =~= Seq::<(Seq<char>, DecV)>::empty());
        if x.1 == q {
            assert(entries_of_weight(r, q) =~= entries_of_weight(s, q).push(x));
        }
    } else if dec_lt(s[0].1, x.1) {
        assert(r =~= seq![x] + s);
        lemma_eow_add(seq![x], s, q);
        if x.1 == q {
            assert forall|i: int| 0 <= i < s.len() implies (#[trigger] s[i]).1 != q by {
                if s[i].1 == q {
                    if i == 0 {
                        crate::num::lemma_dec_lt_irreflexive(q);
                    } else {
                        assert(!dec_lt(s[0].1, s[i].1));
                    }
                }
            }
            lemma_no_match_eow_empty(s, q);
            assert(entries_of_weight(r, q) =~= entries_of_weight(s, q).push(x));
        } else {
            assert(entries_of_weight(r, q) =~= entries_of_weight(s, q));
        }
    } else {
        let s1 = s.drop_first();
        assert forall|i: int, j: int| 0 <= i < j < s1.len() implies !dec_lt(
            (#[trigger] s1[i]).1,
            (#[trigger] s1[j]).1,
        ) by {
            assert(s1[i] == s[i + 1]);
            assert(s1[j] == s[j + 1]);
        }
        lemma_qv_insert_eow(x, s1, q);
        lemma_eow_singleton(s[0], q);
        let rec = qv_insert(x, s1);
        assert(r =~= seq![s[0]] + rec);
        lemma_eow_add(seq![s[0]], rec, q);
        assert(s =~= seq![s[0]] + s1);
        lemma_eow_add(seq![s[0]], s1, q);
        if x.1 == q {
            assert(entries_of_weight(r, q) =~= entries_of_weight(s, q).push(x));
        } else {
            assert(entries_of_weight(r, q) =~= entries_of_weight(s, q));
        }
    }
}

/// Stability: the entries of any one weight stand in the sorted list in
/// exactly their input order.
pub proof fn lemma_qv_sort_stable(items: Seq<(Seq<char>, DecV)>, q: DecV)
    ensures
        entries_of_weight(qv_sort(items), q) == entries_of_weight(items, q),
    decreases items.len(),
{
    if items.len() > 0 {
        lemma_qv_sort_stable(items.drop_last(), q);
        lemma_qv_sort_desc(items.drop_last());
        lemma_qv_insert_eow(items.last(), qv_sort(items.drop_last()), q);
        lemma_eow_singleton(items.last(), q);
        assert(items =~= items.drop_last() + seq![items.last()]);
        lemma_eow_add(items.drop_last(), seq![items.last()], q);
        if items.last().1 == q {
            assert(entries_of_weight(items, q) =~= entries_of_weight(items.drop_last(), q).push(
                items.last(),
            ));
        } else {
            assert(entries_of_weight(items, q) =~= entries_of_weight(items.drop_last(), q));
        }
    }
}

/// Weight order of a parsed header: in the sorted entry list, a token of
/// higher weight never follows one of lower weight.
pub proof fn lemma_qvalue_sorted(s: Seq<char>)
    ensures
        qv_desc(qv_sort(qv_items(s))),
{
    lemma_qv_sort_desc(qv_items(s));
}

/// Weight ties of a parsed header keep their input order: for every
/// weight, the entries carrying it stand in the sorted list exactly as
/// they stood among the parsed entries.
pub proof fn lemma_qvalue_stable(s: Seq<char>, q: DecV)
    ensures
        entries_of_weight(qv_sort(qv_items(s)), q) == entries_of_weight(qv_items(s), q),
{
    lemma_qv_sort_stable(qv_items(s), q);
}

} // verus!
