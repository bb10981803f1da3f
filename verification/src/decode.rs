//! Reading configurations back from their JSON text.
//!
//! The reader accepts exactly the compact form the writer emits. Soundness
//! and completeness are both part of its contract: whatever it accepts
//! re-serializes to the input byte for byte, the serialization of any
//! (well-formed) configuration is accepted, and the configuration returned
//! for such a text is structurally the one that was written. The
//! completeness proof threads a ghost witness — the configuration whose
//! serialization begins at the current position — through the descent;
//! `grammar` supplies the decompositions and the writer's injectivity.

use crate::codec::{explicit_to_json, implicit_to_json, quoted, ser_bool, ser_bool_items,
    ser_explicit, ser_feature, ser_feature_items, ser_implicit, ser_num, ser_str,
    ser_string_items, ser_strlist, ser_strlist_items};
use crate::expression::{
    bool_view, bools_view, lemma_bools_view_index, lemma_bools_view_push,
    lemma_strlists_view_index, num_view, str_view, strlist_view, strlists_view, Bool, BoolV, Num,
    NumV, Str, StrList, StrListV, StrV,
};
use crate::grammar::{
    bool_tag, lemma_bool_items_first, lemma_bool_shape, lemma_chain2, lemma_chain3, lemma_chain4,
    lemma_chain5, lemma_chain6, lemma_feature_items_first, lemma_feature_shape, lemma_key_lits,
    lemma_num_shape, lemma_ser_explicit_inj, lemma_ser_implicit_inj, lemma_str_shape,
    lemma_string_items_first, lemma_strlist_items_first, lemma_strlist_shape, lemma_tag_lits,
    num_lit, num_lit_char, num_tag, str_tag, str_tagged, strlist_tag, tag_head, wf_bool,
    wf_feature, wf_features, wf_num,
};
use crate::implicit::{feature_view, features_view, lemma_features_view_index, Feature, FeatureV};
use crate::jstring::{esc_str, hex_value, lemma_scan_esc, scan_jstr};
use crate::strutil::{begins_with, lemma_begins_decompose, lemma_begins_trans, lemma_skip_skip};
use crate::trusted::chars_to_string;
use vstd::prelude::*;

verus! {

/// The items of a conjunction or disjunction, if the expression is one.
spec fn and_or_items(x: BoolV) -> Option<Seq<BoolV>> {
    match x {
        BoolV::And(xs) => Some(xs),
        BoolV::Or(xs) => Some(xs),
        _ => None,
    }
}

/// Reads the literal `lit` at `pos`, returning the following position.
fn expect_lit(v: &Vec<char>, pos: usize, lit: &Vec<char>) -> (r: Option<usize>)
    ensures
        r matches Some(np) ==> pos < np <= v@.len() && np == pos + lit@.len() && begins_with(
            v@.skip(pos as int),
            lit@,
        ),
        (pos <= v@.len() && lit@.len() > 0 && begins_with(v@.skip(pos as int), lit@)) ==> r
            is Some,
{
    if lit.len() == 0 || pos > v.len() {
        return None;
    }
    let m = crate::strutil::is_match_at(v, lit, pos);
    proof {
        if m {
            assert forall|q: int| 0 <= q < lit@.len() implies #[trigger] v@.skip(pos as int)[q]
                == lit@[q] by {
                assert(v@.subrange(pos as int, pos + lit@.len())[q] == lit@[q]);
            }
        }
        if begins_with(v@.skip(pos as int), lit@) {
            assert forall|q: int| 0 <= q < lit@.len() implies #[trigger] v@.subrange(
                pos as int,
                pos + lit@.len(),
            )[q] == lit@[q] by {
                assert(v@.skip(pos as int)[q] == lit@[q]);
            }
            assert(v@.subrange(pos as int, pos + lit@.len()) =~= lit@);
        }
    }
    if m {
        Some(pos + lit.len())
    } else {
        None
    }
}

/// Reads a quoted JSON string at `pos` (the opening quote included),
/// returning its decoded content and the position after the closing quote.
#[verifier::loop_isolation(false)]
fn read_string(v: &Vec<char>, pos: usize, w: Ghost<Option<Seq<char>>>) -> (r: Option<
    (String, usize),
>)
    requires
        w@ matches Some(k) ==> pos <= v@.len() && begins_with(v@.skip(pos as int), quoted(k)),
    ensures
        r matches Some(p) ==> pos < p.1 <= v@.len(),
        w@ matches Some(k) ==> (r matches Some(p) && p.0@ == k && p.1 == pos + quoted(k).len()),
{
    proof {
        if let Some(k) = w@ {
            let s = v@.skip(pos as int);
            assert(quoted(k)[0] == '"');
            assert(s[0] == quoted(k)[0]);
            lemma_begins_decompose(s, quoted(k));
            let rest = s.skip(quoted(k).len() as int);
            assert(s.skip(1) =~= esc_str(k) + seq!['"'] + rest);
            lemma_scan_esc(k, rest);
            lemma_skip_skip(v@, pos as int, 1);
            assert(scan_jstr(v@.skip(pos as int + 1)) == Some((k, rest)));
            lemma_skip_skip(v@, pos as int, quoted(k).len() as int);
        }
    }
    if pos >= v.len() || v[pos] != '"' {
        return None;
    }
    let mut content: Vec<char> = Vec::new();
    let mut i: usize = pos + 1;
    loop
        invariant
            pos < i <= v@.len(),
            (match scan_jstr(v@.skip(i as int)) {
                Option::Some(pr) => scan_jstr(v@.skip(pos as int + 1)) == Option::Some(
                    (content@ + pr.0, pr.1),
                ),
                Option::None => scan_jstr(v@.skip(pos as int + 1)) is None,
            }),
        decreases v@.len() - i,
    {
        proof {
            if i < v@.len() {
                assert(v@.skip(i as int).len() == v@.len() - i);
                assert(v@.skip(i as int)[0] == v@[i as int]);
            }
        }
        if i >= v.len() {
            return None;
        }
        let c = v[i];
        let ghost c0 = content@;
        let ghost i0 = i as int;
        if c == '"' {
            proof {
                assert(v@.skip(i0).drop_first() =~= v@.skip(i0 + 1));
                assert(scan_jstr(v@.skip(i0)) == Some((Seq::<char>::empty(), v@.skip(i0 + 1))));
                assert(c0 + Seq::<char>::empty() =~= c0);
                if let Some(k) = w@ {
                    assert(v@.skip(i0 + 1).len() == v@.len() - (i0 + 1));
                    assert(v@.skip(pos + quoted(k).len()).len() == v@.len() - (pos + quoted(
                        k,
                    ).len()));
                }
            }
            return Some((chars_to_string(&content), i + 1));
        }
        if c == '\\' {
            if i + 1 >= v.len() {
                proof {
                    assert(scan_jstr(v@.skip(i0)) is None);
                }
                return None;
            }
            let e = v[i + 1];
            proof {
                assert(v@.skip(i0)[1] == v@[i0 + 1]);
            }
            if e == '"' {
                content.push('"');
                i = i + 2;
                proof {
                    lemma_skip_skip(v@, i0, 2);
                    assert(content@ =~= c0.push('"'));
                    match scan_jstr(v@.skip(i0 + 2)) {
                        Option::Some(pr) => {
                            assert(scan_jstr(v@.skip(i0)) == Some((seq!['"'] + pr.0, pr.1)));
                            assert(c0 + (seq!['"'] + pr.0) =~= c0.push('"') + pr.0);
                        },
                        Option::None => {},
                    }
                }
            } else if e == '\\' {
                content.push('\\');
                i = i + 2;
                proof {
                    lemma_skip_skip(v@, i0, 2);
                    assert(content@ =~= c0.push('\\'));
                    match scan_jstr(v@.skip(i0 + 2)) {
                        Option::Some(pr) => {
                            assert(scan_jstr(v@.skip(i0)) == Some((seq!['\\'] + pr.0, pr.1)));
                            assert(c0 + (seq!['\\'] + pr.0) =~= c0.push('\\') + pr.0);
                        },
                        Option::None => {},
                    }
                }
            } else if e == 'b' {
                content.push('\u{8}');
                i = i + 2;
                proof {
                    lemma_skip_skip(v@, i0, 2);
                    assert(content@ =~= c0.push('\u{8}'));
                    match scan_jstr(v@.skip(i0 + 2)) {
                        Option::Some(pr) => {
                            assert(scan_jstr(v@.skip(i0)) == Some((seq!['\u{8}'] + pr.0, pr.1)));
                            assert(c0 + (seq!['\u{8}'] + pr.0) =~= c0.push('\u{8}') + pr.0);
                        },
                        Option::None => {},
                    }
                }
            } else if e == 'f' {
                content.push('\u{c}');
                i = i + 2;
                proof {
                    lemma_skip_skip(v@, i0, 2);
                    assert(content@ =~= c0.push('\u{c}'));
                    match scan_jstr(v@.skip(i0 + 2)) {
                        Option::Some(pr) => {
                            assert(scan_jstr(v@.skip(i0)) == Some((seq!['\u{c}'] + pr.0, pr.1)));
                            assert(c0 + (seq!['\u{c}'] + pr.0) =~= c0.push('\u{c}') + pr.0);
                        },
                        Option::None => {},
                    }
                }
            } else if e == 'n' {
                content.push('\n');
                i = i + 2;
                proof {
                    lemma_skip_skip(v@, i0, 2);
                    assert(content@ =~= c0.push('\n'));
                    match scan_jstr(v@.skip(i0 + 2)) {
                        Option::Some(pr) => {
                            assert(scan_jstr(v@.skip(i0)) == Some((seq!['\n'] + pr.0, pr.1)));
                            assert(c0 + (seq!['\n'] + pr.0) =~= c0.push('\n') + pr.0);
                        },
                        Option::None => {},
                    }
                }
            } else if e == 'r' {
                content.push('\r');
                i = i + 2;
                proof {
                    lemma_skip_skip(v@, i0, 2);
                    assert(content@ =~= c0.push('\r'));
                    match scan_jstr(v@.skip(i0 + 2)) {
                        Option::Some(pr) => {
                            assert(scan_jstr(v@.skip(i0)) == Some((seq!['\r'] + pr.0, pr.1)));
                            assert(c0 + (seq!['\r'] + pr.0) =~= c0.push('\r') + pr.0);
                        },
                        Option::None => {},
                    }
                }
            } else if e == 't' {
                content.push('\t');
                i = i + 2;
                proof {
                    lemma_skip_skip(v@, i0, 2);
                    assert(content@ =~= c0.push('\t'));
                    match scan_jstr(v@.skip(i0 + 2)) {
                        Option::Some(pr) => {
                            assert(scan_jstr(v@.skip(i0)) == Some((seq!['\t'] + pr.0, pr.1)));
                            assert(c0 + (seq!['\t'] + pr.0) =~= c0.push('\t') + pr.0);
                        },
                        Option::None => {},
                    }
                }
            } else if e == 'u' {
                proof {
                    if v@.len() - i0 >= 4 {
                        assert(v@.skip(i0)[2] == v@[i0 + 2]);
                        assert(v@.skip(i0)[3] == v@[i0 + 3]);
                    }
                    if v@.len() - i0 >= 6 {
                        assert(v@.skip(i0)[4] == v@[i0 + 4]);
                        assert(v@.skip(i0)[5] == v@[i0 + 5]);
                    }
                }
                if v.len() - i < 6 || v[i + 2] != '0' || v[i + 3] != '0' {
                    proof {
                        assert(scan_jstr(v@.skip(i0)) is None);
                    }
                    return None;
                }
                let hi = hex_val(v[i + 4]);
                let lo = hex_val(v[i + 5]);
                if hi >= 16 || lo >= 16 {
                    proof {
                        assert(scan_jstr(v@.skip(i0)) is None);
                    }
                    return None;
                }
                let b: u8 = hi * 16 + lo;
                let ghost sc = ((hex_value(v@[i0 + 4]) * 16 + hex_value(v@[i0 + 5])) as char);
                proof {
                    assert((b as char) == sc);
                }
                content.push(b as char);
                i = i + 6;
                proof {
                    lemma_skip_skip(v@, i0, 6);
                    assert(content@ =~= c0.push(sc));
                    match scan_jstr(v@.skip(i0 + 6)) {
                        Option::Some(pr) => {
                            assert(scan_jstr(v@.skip(i0)) == Some((seq![sc] + pr.0, pr.1)));
                            assert(c0 + (seq![sc] + pr.0) =~= c0.push(sc) + pr.0);
                        },
                        Option::None => {},
                    }
                }
            } else {
                proof {
                    assert(scan_jstr(v@.skip(i0)) is None);
                }
                return None;
            }
        } else {
            content.push(c);
            i = i + 1;
            proof {
                assert(v@.skip(i0).drop_first() =~= v@.skip(i0 + 1));
                assert(content@ =~= c0.push(c));
                match scan_jstr(v@.skip(i0 + 1)) {
                    Option::Some(pr) => {
                        assert(scan_jstr(v@.skip(i0)) == Some((seq![c] + pr.0, pr.1)));
                        assert(c0 + (seq![c] + pr.0) =~= c0.push(c) + pr.0);
                    },
                    Option::None => {},
                }
            }
        }
    }
}

/// The value of a lower-case hex digit character, or 16.
fn hex_val(c: char) -> (r: u8)
    ensures
        r <= 16,
        r as int == hex_value(c),
{
    if c == '0' {
        0
    } else if c == '1' {
        1
    } else if c == '2' {
        2
    } else if c == '3' {
        3
    } else if c == '4' {
        4
    } else if c == '5' {
        5
    } else if c == '6' {
        6
    } else if c == '7' {
        7
    } else if c == '8' {
        8
    } else if c == '9' {
        9
    } else if c == 'a' {
        10
    } else if c == 'b' {
        11
    } else if c == 'c' {
        12
    } else if c == 'd' {
        13
    } else if c == 'e' {
        14
    } else if c == 'f' {
        15
    } else {
        16
    }
}

/// Whether a character may appear in a JSON number token.
fn num_char(c: char) -> (r: bool)
    ensures
        r == num_lit_char(c),
{
    ('0' <= c && c <= '9') || c == '-' || c == '+' || c == '.' || c == 'e' || c == 'E'
}

/// Reads a number token at `pos`: its text and the following position.
#[verifier::loop_isolation(false)]
fn read_num_token(v: &Vec<char>, pos: usize, w: Ghost<Option<Seq<char>>>) -> (r: Option<
    (String, usize),
>)
    requires
        w@ matches Some(t) ==> pos <= v@.len() && num_lit(t) && begins_with(v@.skip(pos as int), t)
            && (pos + t.len() == v@.len() || !num_lit_char(v@[pos + t.len()])),
    ensures
        r matches Some(p) ==> pos < p.1 <= v@.len() && num_lit(p.0@),
        w@ matches Some(t) ==> (r matches Some(p) && p.0@ == t && p.1 == pos + t.len()),
{
    let mut i: usize = pos;
    if i > v.len() {
        return None;
    }
    while i < v.len() && num_char(v[i])
        invariant
            pos <= i <= v@.len(),
            forall|q: int| pos <= q < i ==> num_lit_char(#[trigger] v@[q]),
            w@ matches Some(t) ==> i <= pos + t.len(),
        decreases v@.len() - i,
    {
        proof {
            if let Some(t) = w@ {
                if i == pos + t.len() {
                    assert(!num_lit_char(v@[i as int]));
                    assert(false);
                }
            }
        }
        i = i + 1;
    }
    proof {
        if let Some(t) = w@ {
            if i < pos + t.len() {
                assert(v@.skip(pos as int)[i - pos] == t[i - pos]);
                assert(v@.skip(pos as int)[i - pos] == v@[i as int]);
                assert(num_lit_char(t[i - pos]));
                assert(false);
            }
            assert(i == pos + t.len());
        }
    }
    if i == pos {
        return None;
    }
    let tok = crate::strutil::subvec(v, pos, i);
    proof {
        assert forall|q: int| 0 <= q < tok@.len() implies num_lit_char(#[trigger] tok@[q]) by {
            assert(tok@[q] == v@[pos + q]);
        }
        if let Some(t) = w@ {
            assert forall|q: int| 0 <= q < t.len() implies #[trigger] v@.subrange(
                pos as int,
                i as int,
            )[q] == t[q] by {
                assert(v@.skip(pos as int)[q] == t[q]);
            }
            assert(v@.subrange(pos as int, i as int) =~= t);
        }
    }
    Some((chars_to_string(&tok), i))
}

/// Reads one tagged expression head: `{"` tag `":`, returning the tag and
/// the position after the colon.
fn read_tag(v: &Vec<char>, pos: usize, w: Ghost<Option<Seq<char>>>) -> (r: Option<(String, usize)>)
    requires
        w@ matches Some(t) ==> pos <= v@.len() && esc_str(t) == t && begins_with(
            v@.skip(pos as int),
            tag_head(t),
        ),
    ensures
        r matches Some(p) ==> pos < p.1 <= v@.len(),
        w@ matches Some(t) ==> (r matches Some(p) && p.0@ == t && p.1 == pos + tag_head(t).len()),
{
    proof {
        if let Some(t) = w@ {
            let s = v@.skip(pos as int);
            assert(tag_head(t) =~= seq!['{'] + (quoted(t) + seq![':']));
            lemma_chain3(v@, pos as int, seq!['{'], quoted(t), seq![':']);
            assert(s[0] == '{');
            assert(v@[pos as int] == s[0]);
            assert(v@.skip(pos + 1 + quoted(t).len())[0] == ':');
            assert(v@[pos + 1 + quoted(t).len()] == ':');
        }
    }
    if pos >= v.len() || v[pos] != '{' {
        return None;
    }
    let ghost wk: Option<Seq<char>> = match w@ {
        Some(t) => Some(t),
        None => None,
    };
    match read_string(v, pos + 1, Ghost(wk)) {
        None => None,
        Some((tag, p1)) => {
            if p1 < v.len() && v[p1] == ':' {
                Some((tag, p1 + 1))
            } else {
                None
            }
        },
    }
}

/// Reads one character, by value.
fn eat(v: &Vec<char>, pos: usize, c: char) -> (r: Option<usize>)
    ensures
        r matches Some(np) ==> np == pos + 1,
        r is Some <==> (pos < v@.len() && v@[pos as int] == c),
{
    if pos < v.len() && v[pos] == c {
        Some(pos + 1)
    } else {
        None
    }
}

/// Parses a number expression at `pos`.
#[verifier::rlimit(100)]
fn parse_num_at(v: &Vec<char>, pos: usize, w: Ghost<Option<NumV>>) -> (r: Option<(Num, usize)>)
    requires
        w@ matches Some(x) ==> pos <= v@.len() && wf_num(x) && begins_with(
            v@.skip(pos as int),
            ser_num(x),
        ),
    ensures
        r matches Some(p) ==> pos < p.1 <= v@.len(),
        r matches Some(p) ==> wf_num(num_view(p.0)),
        w@ matches Some(x) ==> (r matches Some(p) && num_view(p.0) == x && p.1 == pos + ser_num(
            x,
        ).len()),
    decreases v@.len() - pos,
{
    proof {
        if let Some(x) = w@ {
            lemma_num_shape(x);
            lemma_tag_lits();
            lemma_key_lits();
            lemma_begins_trans(v@.skip(pos as int), ser_num(x), tag_head(num_tag(x)));
            crate::jstring::lemma_esc_plain(num_tag(x));
        }
    }
    let ghost wt: Option<Seq<char>> = match w@ {
        Some(x) => Some(num_tag(x)),
        None => None,
    };
    let (tag, p0) = match read_tag(v, pos, Ghost(wt)) {
        None => {
            return None;
        },
        Some(t) => t,
    };
    if string_is(&tag, "constant") {
        proof {
            if let Some(x) = w@ {
                match x {
                    NumV::Constant(t) => {
                        lemma_chain3(v@, pos as int, tag_head("constant"@), t, seq!['}']);
                        assert(v@.skip(pos + tag_head("constant"@).len() + t.len())[0] == '}');
                        assert(v@[pos + tag_head("constant"@).len() + t.len()] == '}');
                        assert(!num_lit_char('}'));
                    },
                    _ => {
                        assert(false);
                    },
                }
            }
        }
        let ghost wtk: Option<Seq<char>> = match w@ {
            Some(NumV::Constant(t)) => Some(t),
            _ => None,
        };
        let (t, p1) = match read_num_token(v, p0, Ghost(wtk)) {
            None => {
                return None;
            },
            Some(x) => x,
        };
        match eat(v, p1, '}') {
            None => None,
            Some(np) => Some((Num::Constant(t), np)),
        }
    } else if string_is(&tag, "attribute") {
        proof {
            if let Some(x) = w@ {
                match x {
                    NumV::Attribute(k) => {
                        lemma_chain3(v@, pos as int, tag_head("attribute"@), quoted(k), seq!['}']);
                        assert(v@.skip(pos + tag_head("attribute"@).len() + quoted(k).len())[0]
                            == '}');
                        assert(v@[pos + tag_head("attribute"@).len() + quoted(k).len()] == '}');
                    },
                    _ => {
                        assert(false);
                    },
                }
            }
        }
        let ghost wk: Option<Seq<char>> = match w@ {
            Some(NumV::Attribute(k)) => Some(k),
            _ => None,
        };
        let (k, p1) = match read_string(v, p0, Ghost(wk)) {
            None => {
                return None;
            },
            Some(x) => x,
        };
        match eat(v, p1, '}') {
            None => None,
            Some(np) => Some((Num::Attribute(k), np)),
        }
    } else if string_is(&tag, "rank") {
        proof {
            if let Some(x) = w@ {
                match x {
                    NumV::Rank(val) => {
                        lemma_chain3(v@, pos as int, tag_head("rank"@), ser_str(*val), seq!['}']);
                        assert(v@.skip(pos + tag_head("rank"@).len() + ser_str(*val).len())[0]
                            == '}');
                        assert(v@[pos + tag_head("rank"@).len() + ser_str(*val).len()] == '}');
                    },
                    _ => {
                        assert(false);
                    },
                }
            }
        }
        let ghost wv: Option<StrV> = match w@ {
            Some(NumV::Rank(val)) => Some(*val),
            _ => None,
        };
        let (x, p1) = match parse_str_at(v, p0, Ghost(wv)) {
            None => {
                return None;
            },
            Some(x) => x,
        };
        match eat(v, p1, '}') {
            None => None,
            Some(np) => Some((Num::Rank(x), np)),
        }
    } else if string_is(&tag, "json_pointer") {
        proof {
            if let Some(x) = w@ {
                match x {
                    NumV::JsonPointer { pointer, value } => {
                        lemma_chain6(
                            v@,
                            pos as int,
                            tag_head("json_pointer"@),
                            "{\"pointer\":"@,
                            quoted(pointer),
                            ",\"value\":"@,
                            ser_str(*value),
                            seq!['}', '}'],
                        );
                        let off = pos + tag_head("json_pointer"@).len() + "{\"pointer\":"@.len()
                            + quoted(pointer).len() + ",\"value\":"@.len() + ser_str(
                            *value,
                        ).len();
                        assert(v@.skip(off)[0] == '}');
                        assert(v@.skip(off)[1] == '}');
                        assert(v@[off] == '}');
                        assert(v@[off + 1] == '}');
                    },
                    _ => {
                        assert(false);
                    },
                }
            }
        }
        let pk = crate::strutil::to_chars("{\"pointer\":");
        let p1 = match expect_lit(v, p0, &pk) {
            None => {
                return None;
            },
            Some(x) => x,
        };
        let ghost wp: Option<Seq<char>> = match w@ {
            Some(NumV::JsonPointer { pointer, .. }) => Some(pointer),
            _ => None,
        };
        let (pointer, p2) = match read_string(v, p1, Ghost(wp)) {
            None => {
                return None;
            },
            Some(x) => x,
        };
        let mv = crate::strutil::to_chars(",\"value\":");
        let p3 = match expect_lit(v, p2, &mv) {
            None => {
                return None;
            },
            Some(x) => x,
        };
        let ghost wv: Option<StrV> = match w@ {
            Some(NumV::JsonPointer { value, .. }) => Some(*value),
            _ => None,
        };
        let (value, p4) = match parse_str_at(v, p3, Ghost(wv)) {
            None => {
                return None;
            },
            Some(x) => x,
        };
        let p5 = match eat(v, p4, '}') {
            None => {
                return None;
            },
            Some(x) => x,
        };
        match eat(v, p5, '}') {
            None => None,
            Some(np) => Some((Num::JsonPointer { pointer, value }, np)),
        }
    } else {
        None
    }
}

/// Parses a string expression at `pos`.
#[verifier::rlimit(100)]
fn parse_str_at(v: &Vec<char>, pos: usize, w: Ghost<Option<StrV>>) -> (r: Option<(Str, usize)>)
    requires
        w@ matches Some(x) ==> pos <= v@.len() && begins_with(v@.skip(pos as int), ser_str(x)),
    ensures
        r matches Some(p) ==> pos < p.1 <= v@.len(),
        w@ matches Some(x) ==> (r matches Some(p) && str_view(p.0) == x && p.1 == pos + ser_str(
            x,
        ).len()),
    decreases v@.len() - pos,
{
    proof {
        if let Some(x) = w@ {
            lemma_str_shape(x);
            lemma_tag_lits();
            lemma_key_lits();
            crate::jstring::lemma_esc_plain(str_tag(x));
            if str_tagged(x) {
                lemma_begins_trans(v@.skip(pos as int), ser_str(x), tag_head(str_tag(x)));
            }
            assert(v@.skip(pos as int)[0] == ser_str(x)[0]);
            assert(v@[pos as int] == v@.skip(pos as int)[0]);
        }
    }
    if pos < v.len() && v[pos] == '"' {
        let ghost wn: Option<Seq<char>> = match w@ {
            Some(StrV::Browser) => Some("browser"@),
            Some(StrV::BrowserVersion) => Some("browser_version"@),
            Some(StrV::OperatingSystem) => Some("operating_system"@),
            _ => None,
        };
        let (name, np) = match read_string(v, pos, Ghost(wn)) {
            None => {
                return None;
            },
            Some(x) => x,
        };
        if string_is(&name, "browser") {
            return Some((Str::Browser, np));
        }
        if string_is(&name, "browser_version") {
            return Some((Str::BrowserVersion, np));
        }
        if string_is(&name, "operating_system") {
            return Some((Str::OperatingSystem, np));
        }
        return None;
    }
    let ghost wt: Option<Seq<char>> = match w@ {
        Some(x) => Some(str_tag(x)),
        None => None,
    };
    let (tag, p0) = match read_tag(v, pos, Ghost(wt)) {
        None => {
            return None;
        },
        Some(t) => t,
    };
    if string_is(&tag, "constant") || string_is(&tag, "attribute") || string_is(&tag, "cookie") {
        proof {
            if let Some(x) = w@ {
                match x {
                    StrV::Constant(sv) => {
                        lemma_chain3(v@, pos as int, tag_head("constant"@), quoted(sv), seq!['}']);
                        assert(v@.skip(pos + tag_head("constant"@).len() + quoted(sv).len())[0]
                            == '}');
                        assert(v@[pos + tag_head("constant"@).len() + quoted(sv).len()] == '}');
                    },
                    StrV::Attribute(k) => {
                        lemma_chain3(v@, pos as int, tag_head("attribute"@), quoted(k), seq!['}']);
                        assert(v@.skip(pos + tag_head("attribute"@).len() + quoted(k).len())[0]
                            == '}');
                        assert(v@[pos + tag_head("attribute"@).len() + quoted(k).len()] == '}');
                    },
                    StrV::Cookie(n) => {
                        lemma_chain3(v@, pos as int, tag_head("cookie"@), quoted(n), seq!['}']);
                        assert(v@.skip(pos + tag_head("cookie"@).len() + quoted(n).len())[0]
                            == '}');
                        assert(v@[pos + tag_head("cookie"@).len() + quoted(n).len()] == '}');
                    },
                    _ => {
                        assert(false);
                    },
                }
            }
        }
        let ghost wk: Option<Seq<char>> = match w@ {
            Some(StrV::Constant(sv)) => Some(sv),
            Some(StrV::Attribute(k)) => Some(k),
            Some(StrV::Cookie(n)) => Some(n),
            _ => None,
        };
        let (k, p1) = match read_string(v, p0, Ghost(wk)) {
            None => {
                return None;
            },
            Some(x) => x,
        };
        match eat(v, p1, '}') {
            None => None,
            Some(np) => if string_is(&tag, "constant") {
                Some((Str::Constant(k), np))
            } else if string_is(&tag, "attribute") {
                Some((Str::Attribute(k), np))
            } else {
                Some((Str::Cookie(k), np))
            },
        }
    } else if string_is(&tag, "base64") {
        proof {
            if let Some(x) = w@ {
                match x {
                    StrV::Base64(val) => {
                        lemma_chain3(v@, pos as int, tag_head("base64"@), ser_str(*val), seq!['}']);
                        assert(v@.skip(pos + tag_head("base64"@).len() + ser_str(*val).len())[0]
                            == '}');
                        assert(v@[pos + tag_head("base64"@).len() + ser_str(*val).len()] == '}');
                    },
                    _ => {
                        assert(false);
                    },
                }
            }
        }
        let ghost wv: Option<StrV> = match w@ {
            Some(StrV::Base64(val)) => Some(*val),
            _ => None,
        };
        let (x, p1) = match parse_str_at(v, p0, Ghost(wv)) {
            None => {
                return None;
            },
            Some(x) => x,
        };
        match eat(v, p1, '}') {
            None => None,
            Some(np) => Some((Str::Base64(Box::new(x)), np)),
        }
    } else if string_is(&tag, "extract") {
        proof {
            if let Some(x) = w@ {
                match x {
                    StrV::Extract { regex, value } => {
                        lemma_chain6(
                            v@,
                            pos as int,
                            tag_head("extract"@),
                            "{\"regex\":"@,
                            quoted(regex),
                            ",\"value\":"@,
                            ser_str(*value),
                            seq!['}', '}'],
                        );
                        let off = pos + tag_head("extract"@).len() + "{\"regex\":"@.len()
                            + quoted(regex).len() + ",\"value\":"@.len() + ser_str(*value).len();
                        assert(v@.skip(off)[0] == '}');
                        assert(v@.skip(off)[1] == '}');
                        assert(v@[off] == '}');
                        assert(v@[off + 1] == '}');
                    },
                    _ => {
                        assert(false);
                    },
                }
            }
        }
        let rk = crate::strutil::to_chars("{\"regex\":");
        let p1 = match expect_lit(v, p0, &rk) {
            None => {
                return None;
            },
            Some(x) => x,
        };
        let ghost wre: Option<Seq<char>> = match w@ {
            Some(StrV::Extract { regex, .. }) => Some(regex),
            _ => None,
        };
        let (regex, p2) = match read_string(v, p1, Ghost(wre)) {
            None => {
                return None;
            },
            Some(x) => x,
        };
        let mv = crate::strutil::to_chars(",\"value\":");
        let p3 = match expect_lit(v, p2, &mv) {
            None => {
                return None;
            },
            Some(x) => x,
        };
        let ghost wv: Option<StrV> = match w@ {
            Some(StrV::Extract { value, .. }) => Some(*value),
            _ => None,
        };
        let (value, p4) = match parse_str_at(v, p3, Ghost(wv)) {
            None => {
                return None;
            },
            Some(x) => x,
        };
        let p5 = match eat(v, p4, '}') {
            None => {
                return None;
            },
            Some(x) => x,
        };
        match eat(v, p5, '}') {
            None => None,
            Some(np) => Some((Str::Extract { regex, value: Box::new(value) }, np)),
        }
    } else if string_is(&tag, "json_pointer") {
        proof {
            if let Some(x) = w@ {
                match x {
                    StrV::JsonPointer { pointer, value } => {
                        lemma_chain6(
                            v@,
                            pos as int,
                            tag_head("json_pointer"@),
                            "{\"pointer\":"@,
                            quoted(pointer),
                            ",\"value\":"@,
                            ser_str(*value),
                            seq!['}', '}'],
                        );
                        let off = pos + tag_head("json_pointer"@).len() + "{\"pointer\":"@.len()
                            + quoted(pointer).len() + ",\"value\":"@.len() + ser_str(
                            *value,
                        ).len();
                        assert(v@.skip(off)[0] == '}');
                        assert(v@.skip(off)[1] == '}');
                        assert(v@[off] == '}');
                        assert(v@[off + 1] == '}');
                    },
                    _ => {
                        assert(false);
                    },
                }
            }
        }
        let pk = crate::strutil::to_chars("{\"pointer\":");
        let p1 = match expect_lit(v, p0, &pk) {
            None => {
                return None;
            },
            Some(x) => x,
        };
        let ghost wp: Option<Seq<char>> = match w@ {
            Some(StrV::JsonPointer { pointer, .. }) => Some(pointer),
            _ => None,
        };
        let (pointer, p2) = match read_string(v, p1, Ghost(wp)) {
            None => {
                return None;
            },
            Some(x) => x,
        };
        let mv = crate::strutil::to_chars(",\"value\":");
        let p3 = match expect_lit(v, p2, &mv) {
            None => {
                return None;
            },
            Some(x) => x,
        };
        let ghost wv: Option<StrV> = match w@ {
            Some(StrV::JsonPointer { value, .. }) => Some(*value),
            _ => None,
        };
        let (value, p4) = match parse_str_at(v, p3, Ghost(wv)) {
            None => {
                return None;
            },
            Some(x) => x,
        };
        let p5 = match eat(v, p4, '}') {
            None => {
                return None;
            },
            Some(x) => x,
        };
        match eat(v, p5, '}') {
            None => None,
            Some(np) => Some((Str::JsonPointer { pointer, value: Box::new(value) }, np)),
        }
    } else if string_is(&tag, "first") || string_is(&tag, "last") {
        proof {
            if let Some(x) = w@ {
                match x {
                    StrV::First(l) => {
                        lemma_chain3(
                            v@,
                            pos as int,
                            tag_head("first"@),
                            ser_strlist(*l),
                            seq!['}'],
                        );
                        assert(v@.skip(pos + tag_head("first"@).len() + ser_strlist(*l).len())[0]
                            == '}');
                        assert(v@[pos + tag_head("first"@).len() + ser_strlist(*l).len()] == '}');
                    },
                    StrV::Last(l) => {
                        lemma_chain3(v@, pos as int, tag_head("last"@), ser_strlist(*l), seq!['}']);
                        assert(v@.skip(pos + tag_head("last"@).len() + ser_strlist(*l).len())[0]
                            == '}');
                        assert(v@[pos + tag_head("last"@).len() + ser_strlist(*l).len()] == '}');
                    },
                    _ => {
                        assert(false);
                    },
                }
            }
        }
        let ghost wl: Option<StrListV> = match w@ {
            Some(StrV::First(l)) => Some(*l),
            Some(StrV::Last(l)) => Some(*l),
            _ => None,
        };
        let (l, p1) = match parse_strlist_at(v, p0, Ghost(wl)) {
            None => {
                return None;
            },
            Some(x) => x,
        };
        match eat(v, p1, '}') {
            None => None,
            Some(np) => if string_is(&tag, "first") {
                Some((Str::First(Box::new(l)), np))
            } else {
                Some((Str::Last(Box::new(l)), np))
            },
        }
    } else {
        None
    }
}

/// Parses a string-list expression at `pos`.
#[verifier::loop_isolation(false)]
#[verifier::rlimit(100)]
fn parse_strlist_at(v: &Vec<char>, pos: usize, w: Ghost<Option<StrListV>>) -> (r: Option<
    (StrList, usize),
>)
    requires
        w@ matches Some(x) ==> pos <= v@.len() && begins_with(v@.skip(pos as int), ser_strlist(x)),
    ensures
        r matches Some(p) ==> pos < p.1 <= v@.len(),
        w@ matches Some(x) ==> (r matches Some(p) && strlist_view(p.0) == x && p.1 == pos
            + ser_strlist(x).len()),
    decreases v@.len() - pos,
{
    proof {
        if let Some(x) = w@ {
            lemma_strlist_shape(x);
            lemma_tag_lits();
            lemma_key_lits();
            crate::jstring::lemma_esc_plain(strlist_tag(x));
            lemma_begins_trans(v@.skip(pos as int), ser_strlist(x), tag_head(strlist_tag(x)));
        }
    }
    let ghost wt: Option<Seq<char>> = match w@ {
        Some(x) => Some(strlist_tag(x)),
        None => None,
    };
    let (tag, p0) = match read_tag(v, pos, Ghost(wt)) {
        None => {
            return None;
        },
        Some(t) => t,
    };
    if string_is(&tag, "constant") {
        proof {
            if let Some(x) = w@ {
                match x {
                    StrListV::Constant(vs) => {
                        lemma_chain4(
                            v@,
                            pos as int,
                            tag_head("constant"@),
                            seq!['['],
                            ser_string_items(vs),
                            seq![']', '}'],
                        );
                        assert(v@.skip(pos + tag_head("constant"@).len())[0] == '[');
                        assert(v@[pos + tag_head("constant"@).len()] == '[');
                        let toff = pos + tag_head("constant"@).len() + 1 + ser_string_items(
                            vs,
                        ).len();
                        assert(v@.skip(toff)[0] == ']');
                        assert(v@.skip(toff)[1] == '}');
                        assert(v@[toff] == ']');
                        assert(v@[toff + 1] == '}');
                        if vs.len() > 0 {
                            lemma_string_items_first(vs);
                            assert(quoted(vs[0])[0] == '"');
                            assert(ser_string_items(vs)[0] == '"');
                            assert(v@.skip(pos + tag_head("constant"@).len() + 1)[0] == '"');
                            assert(v@[pos + tag_head("constant"@).len() + 1] == '"');
                        } else {
                            reveal(crate::codec::ser_string_items);
                            assert(ser_string_items(vs).len() == 0);
                        }
                    },
                    _ => {
                        assert(false);
                    },
                }
            }
        }
        let p1 = match eat(v, p0, '[') {
            None => {
                return None;
            },
            Some(x) => x,
        };
        let mut items: Vec<String> = Vec::new();
        let mut p: usize = p1;
        let ghost mut j: int = 0;
        if let Some(p2) = eat(v, p, ']') {
            match eat(v, p2, '}') {
                None => {
                    return None;
                },
                Some(np) => {
                    proof {
                        assert(items.deep_view() =~= Seq::<Seq<char>>::empty());
                        if let Some(x) = w@ {
                            match x {
                                StrListV::Constant(vs) => {
                                    if vs.len() > 0 {
                                        assert(false);
                                    } else {
                                        assert(vs =~= Seq::<Seq<char>>::empty());
                                    }
                                },
                                _ => {},
                            }
                        }
                    }
                    return Some((StrList::Constant(items), np));
                },
            }
        }
        proof {
            if let Some(x) = w@ {
                match x {
                    StrListV::Constant(vs) => {
                        assert(vs.len() > 0);
                        assert(vs.skip(0) =~= vs);
                        assert(vs.take(0) =~= Seq::<Seq<char>>::empty());
                        assert(items.deep_view() =~= Seq::<Seq<char>>::empty());
                    },
                    _ => {},
                }
            }
        }
        loop
            invariant
                pos < p <= v@.len(),
                w@ matches Some(x) ==> (match x {
                    StrListV::Constant(vs) => {
                        &&& 0 <= j < vs.len()
                        &&& items.deep_view() == vs.take(j)
                        &&& begins_with(v@.skip(p as int), ser_string_items(vs.skip(j)))
                        &&& p == pos + tag_head("constant"@).len() + 1 + (ser_string_items(vs).len()
                            - ser_string_items(vs.skip(j)).len())
                    },
                    _ => false,
                }),
            decreases v@.len() - p,
        {
            let ghost wi: Option<Seq<char>> = match w@ {
                Some(StrListV::Constant(vs)) => Some(vs[j]),
                _ => None,
            };
            proof {
                if let Some(x) = w@ {
                    match x {
                        StrListV::Constant(vs) => {
                            let ws = vs.skip(j);
                            lemma_string_items_first(ws);
                            assert(ws[0] == vs[j]);
                            if ws.len() == 1 {
                                assert(ser_string_items(ws) == quoted(vs[j])
                                    + Seq::<char>::empty());
                                assert(quoted(vs[j]) + Seq::<char>::empty() =~= quoted(vs[j]));
                                lemma_chain2(v@, p as int, quoted(vs[j]), Seq::<char>::empty());
                            } else {
                                assert(ws.skip(1) =~= vs.skip(j + 1));
                                lemma_chain3(
                                    v@,
                                    p as int,
                                    quoted(vs[j]),
                                    seq![','],
                                    ser_string_items(vs.skip(j + 1)),
                                );
                                assert(v@.skip(p + quoted(vs[j]).len())[0] == ',');
                                assert(v@[p + quoted(vs[j]).len()] == ',');
                            }
                        },
                        _ => {},
                    }
                }
            }
            let (x, p2) = match read_string(v, p, Ghost(wi)) {
                None => {
                    return None;
                },
                Some(x) => x,
            };
            items.push(x);
            if let Some(p3) = eat(v, p2, ',') {
                proof {
                    if let Some(xx) = w@ {
                        match xx {
                            StrListV::Constant(vs) => {
                                assert(vs.skip(j).len() > 1);
                                assert(vs.take(j + 1) =~= vs.take(j).push(vs[j]));
                                assert(items.deep_view() =~~= vs.take(j + 1));
                                j = j + 1;
                            },
                            _ => {},
                        }
                    }
                }
                p = p3;
            } else {
                let p3 = match eat(v, p2, ']') {
                    None => {
                        return None;
                    },
                    Some(x) => x,
                };
                match eat(v, p3, '}') {
                    None => {
                        return None;
                    },
                    Some(np) => {
                        proof {
                            if let Some(xx) = w@ {
                                match xx {
                                    StrListV::Constant(vs) => {
                                        assert(vs.skip(j).len() == 1);
                                        assert(vs.take(j + 1) =~= vs.take(j).push(vs[j]));
                                        assert(items.deep_view() =~~= vs.take(j + 1));
                                        assert(vs.take(j + 1) =~= vs);
                                    },
                                    _ => {},
                                }
                            }
                        }
                        return Some((StrList::Constant(items), np));
                    },
                }
            }
        }
    } else if string_is(&tag, "split") {
        proof {
            if let Some(x) = w@ {
                match x {
                    StrListV::Split { separator, value } => {
                        lemma_chain6(
                            v@,
                            pos as int,
                            tag_head("split"@),
                            "{\"separator\":"@,
                            quoted(separator),
                            ",\"value\":"@,
                            ser_str(*value),
                            seq!['}', '}'],
                        );
                        let off = pos + tag_head("split"@).len() + "{\"separator\":"@.len()
                            + quoted(separator).len() + ",\"value\":"@.len() + ser_str(
                            *value,
                        ).len();
                        assert(v@.skip(off)[0] == '}');
                        assert(v@.skip(off)[1] == '}');
                        assert(v@[off] == '}');
                        assert(v@[off + 1] == '}');
                    },
                    _ => {
                        assert(false);
                    },
                }
            }
        }
        let sk = crate::strutil::to_chars("{\"separator\":");
        let p1 = match expect_lit(v, p0, &sk) {
            None => {
                return None;
            },
            Some(x) => x,
        };
        let ghost ws: Option<Seq<char>> = match w@ {
            Some(StrListV::Split { separator, .. }) => Some(separator),
            _ => None,
        };
        let (separator, p2) = match read_string(v, p1, Ghost(ws)) {
            None => {
                return None;
            },
            Some(x) => x,
        };
        let mv = crate::strutil::to_chars(",\"value\":");
        let p3 = match expect_lit(v, p2, &mv) {
            None => {
                return None;
            },
            Some(x) => x,
        };
        let ghost wv: Option<StrV> = match w@ {
            Some(StrListV::Split { value, .. }) => Some(*value),
            _ => None,
        };
        let (value, p4) = match parse_str_at(v, p3, Ghost(wv)) {
            None => {
                return None;
            },
            Some(x) => x,
        };
        let p5 = match eat(v, p4, '}') {
            None => {
                return None;
            },
            Some(x) => x,
        };
        match eat(v, p5, '}') {
            None => None,
            Some(np) => Some((StrList::Split { separator, value }, np)),
        }
    } else if string_is(&tag, "extract") {
        proof {
            if let Some(x) = w@ {
                match x {
                    StrListV::Extract { regex, value } => {
                        lemma_chain6(
                            v@,
                            pos as int,
                            tag_head("extract"@),
                            "{\"regex\":"@,
                            quoted(regex),
                            ",\"value\":"@,
                            ser_str(*value),
                            seq!['}', '}'],
                        );
                        let off = pos + tag_head("extract"@).len() + "{\"regex\":"@.len()
                            + quoted(regex).len() + ",\"value\":"@.len() + ser_str(*value).len();
                        assert(v@.skip(off)[0] == '}');
                        assert(v@.skip(off)[1] == '}');
                        assert(v@[off] == '}');
                        assert(v@[off + 1] == '}');
                    },
                    _ => {
                        assert(false);
                    },
                }
            }
        }
        let rk = crate::strutil::to_chars("{\"regex\":");
        let p1 = match expect_lit(v, p0, &rk) {
            None => {
                return None;
            },
            Some(x) => x,
        };
        let ghost wre: Option<Seq<char>> = match w@ {
            Some(StrListV::Extract { regex, .. }) => Some(regex),
            _ => None,
        };
        let (regex, p2) = match read_string(v, p1, Ghost(wre)) {
            None => {
                return None;
            },
            Some(x) => x,
        };
        let mv = crate::strutil::to_chars(",\"value\":");
        let p3 = match expect_lit(v, p2, &mv) {
            None => {
                return None;
            },
            Some(x) => x,
        };
        let ghost wv: Option<StrV> = match w@ {
            Some(StrListV::Extract { value, .. }) => Some(*value),
            _ => None,
        };
        let (value, p4) = match parse_str_at(v, p3, Ghost(wv)) {
            None => {
                return None;
            },
            Some(x) => x,
        };
        let p5 = match eat(v, p4, '}') {
            None => {
                return None;
            },
            Some(x) => x,
        };
        match eat(v, p5, '}') {
            None => None,
            Some(np) => Some((StrList::Extract { regex, value: Box::new(value) }, np)),
        }
    } else if string_is(&tag, "http_quality_value") {
        proof {
            if let Some(x) = w@ {
                match x {
                    StrListV::HttpQualityValue(val) => {
                        lemma_chain3(
                            v@,
                            pos as int,
                            tag_head("http_quality_value"@),
                            ser_str(*val),
                            seq!['}'],
                        );
                        assert(v@.skip(pos + tag_head("http_quality_value"@).len() + ser_str(
                            *val,
                        ).len())[0] == '}');
                        assert(v@[pos + tag_head("http_quality_value"@).len() + ser_str(
                            *val,
                        ).len()] == '}');
                    },
                    _ => {
                        assert(false);
                    },
                }
            }
        }
        let ghost wv: Option<StrV> = match w@ {
            Some(StrListV::HttpQualityValue(val)) => Some(*val),
            _ => None,
        };
        let (x, p1) = match parse_str_at(v, p0, Ghost(wv)) {
            None => {
                return None;
            },
            Some(x) => x,
        };
        match eat(v, p1, '}') {
            None => None,
            Some(np) => Some((StrList::HttpQualityValue(x), np)),
        }
    } else {
        None
    }
}

/// Parses a boolean expression at `pos`.
#[verifier::loop_isolation(false)]
#[verifier::rlimit(100)]
fn parse_bool_at(v: &Vec<char>, pos: usize, w: Ghost<Option<BoolV>>) -> (r: Option<(Bool, usize)>)
    requires
        w@ matches Some(x) ==> pos <= v@.len() && wf_bool(x) && begins_with(
            v@.skip(pos as int),
            ser_bool(x),
        ),
    ensures
        r matches Some(p) ==> pos < p.1 <= v@.len(),
        r matches Some(p) ==> wf_bool(bool_view(p.0)),
        w@ matches Some(x) ==> (r matches Some(p) && bool_view(p.0) == x && p.1 == pos + ser_bool(
            x,
        ).len()),
    decreases v@.len() - pos,
{
    proof {
        if let Some(x) = w@ {
            lemma_bool_shape(x);
            lemma_tag_lits();
            lemma_key_lits();
            crate::jstring::lemma_esc_plain(bool_tag(x));
            lemma_begins_trans(v@.skip(pos as int), ser_bool(x), tag_head(bool_tag(x)));
        }
    }
    let ghost wt: Option<Seq<char>> = match w@ {
        Some(x) => Some(bool_tag(x)),
        None => None,
    };
    let (tag, p0) = match read_tag(v, pos, Ghost(wt)) {
        None => {
            return None;
        },
        Some(t) => t,
    };
    if string_is(&tag, "constant") {
        proof {
            if let Some(x) = w@ {
                match x {
                    BoolV::Constant(bv) => {
                        if bv {
                            lemma_chain2(v@, pos as int, tag_head("constant"@), "true}"@);
                        } else {
                            lemma_chain2(v@, pos as int, tag_head("constant"@), "false}"@);
                        }
                        assert(v@.skip(pos + tag_head("constant"@).len())[0] == (if bv {
                            't'
                        } else {
                            'f'
                        }));
                    },
                    _ => {
                        assert(false);
                    },
                }
            }
        }
        let t = crate::strutil::to_chars("true}");
        if let Some(np) = expect_lit(v, p0, &t) {
            return Some((Bool::Constant(true), np));
        }
        let f = crate::strutil::to_chars("false}");
        if let Some(np) = expect_lit(v, p0, &f) {
            return Some((Bool::Constant(false), np));
        }
        return None;
    }
    if string_is(&tag, "attribute") {
        proof {
            if let Some(x) = w@ {
                match x {
                    BoolV::Attribute(k) => {
                        lemma_chain3(v@, pos as int, tag_head("attribute"@), quoted(k), seq!['}']);
                        assert(v@.skip(pos + tag_head("attribute"@).len() + quoted(k).len())[0]
                            == '}');
                        assert(v@[pos + tag_head("attribute"@).len() + quoted(k).len()] == '}');
                    },
                    _ => {
                        assert(false);
                    },
                }
            }
        }
        let ghost wk: Option<Seq<char>> = match w@ {
            Some(BoolV::Attribute(k)) => Some(k),
            _ => None,
        };
        let (k, p1) = match read_string(v, p0, Ghost(wk)) {
            None => {
                return None;
            },
            Some(x) => x,
        };
        match eat(v, p1, '}') {
            None => None,
            Some(np) => Some((Bool::Attribute(k), np)),
        }
    } else if string_is(&tag, "in") {
        proof {
            if let Some(x) = w@ {
                match x {
                    BoolV::In { list, value } => {
                        lemma_chain6(
                            v@,
                            pos as int,
                            tag_head("in"@),
                            "{\"list\":"@,
                            ser_strlist(*list),
                            ",\"value\":"@,
                            ser_str(*value),
                            seq!['}', '}'],
                        );
                        let off = pos + tag_head("in"@).len() + "{\"list\":"@.len() + ser_strlist(
                            *list,
                        ).len() + ",\"value\":"@.len() + ser_str(*value).len();
                        assert(v@.skip(off)[0] == '}');
                        assert(v@.skip(off)[1] == '}');
                        assert(v@[off] == '}');
                        assert(v@[off + 1] == '}');
                    },
                    _ => {
                        assert(false);
                    },
                }
            }
        }
        let lk = crate::strutil::to_chars("{\"list\":");
        let p1 = match expect_lit(v, p0, &lk) {
            None => {
                return None;
            },
            Some(x) => x,
        };
        let ghost wl: Option<StrListV> = match w@ {
            Some(BoolV::In { list, .. }) => Some(*list),
            _ => None,
        };
        let (list, p2) = match parse_strlist_at(v, p1, Ghost(wl)) {
            None => {
                return None;
            },
            Some(x) => x,
        };
        let mv = crate::strutil::to_chars(",\"value\":");
        let p3 = match expect_lit(v, p2, &mv) {
            None => {
                return None;
            },
            Some(x) => x,
        };
        let ghost wv: Option<StrV> = match w@ {
            Some(BoolV::In { value, .. }) => Some(*value),
            _ => None,
        };
        let (value, p4) = match parse_str_at(v, p3, Ghost(wv)) {
            None => {
                return None;
            },
            Some(x) => x,
        };
        let p5 = match eat(v, p4, '}') {
            None => {
                return None;
            },
            Some(x) => x,
        };
        match eat(v, p5, '}') {
            None => None,
            Some(np) => Some((Bool::In { list, value }, np)),
        }
    } else if string_is(&tag, "any_in") || string_is(&tag, "all_in") {
        let any = string_is(&tag, "any_in");
        proof {
            if let Some(x) = w@ {
                match x {
                    BoolV::AnyIn { list, values } => {
                        lemma_chain6(
                            v@,
                            pos as int,
                            tag_head("any_in"@),
                            "{\"list\":"@,
                            ser_strlist(*list),
                            ",\"values\":"@,
                            ser_strlist(*values),
                            seq!['}', '}'],
                        );
                        let off = pos + tag_head("any_in"@).len() + "{\"list\":"@.len()
                            + ser_strlist(*list).len() + ",\"values\":"@.len() + ser_strlist(
                            *values,
                        ).len();
                        assert(v@.skip(off)[0] == '}');
                        assert(v@.skip(off)[1] == '}');
                        assert(v@[off] == '}');
                        assert(v@[off + 1] == '}');
                    },
                    BoolV::AllIn { list, values } => {
                        lemma_chain6(
                            v@,
                            pos as int,
                            tag_head("all_in"@),
                            "{\"list\":"@,
                            ser_strlist(*list),
                            ",\"values\":"@,
                            ser_strlist(*values),
                            seq!['}', '}'],
                        );
                        let off = pos + tag_head("all_in"@).len() + "{\"list\":"@.len()
                            + ser_strlist(*list).len() + ",\"values\":"@.len() + ser_strlist(
                            *values,
                        ).len();
                        assert(v@.skip(off)[0] == '}');
                        assert(v@.skip(off)[1] == '}');
                        assert(v@[off] == '}');
                        assert(v@[off + 1] == '}');
                    },
                    _ => {
                        assert(false);
                    },
                }
            }
        }
        let lk = crate::strutil::to_chars("{\"list\":");
        let p1 = match expect_lit(v, p0, &lk) {
            None => {
                return None;
            },
            Some(x) => x,
        };
        let ghost wl: Option<StrListV> = match w@ {
            Some(BoolV::AnyIn { list, .. }) => Some(*list),
            Some(BoolV::AllIn { list, .. }) => Some(*list),
            _ => None,
        };
        let (list, p2) = match parse_strlist_at(v, p1, Ghost(wl)) {
            None => {
                return None;
            },
            Some(x) => x,
        };
        let mv = crate::strutil::to_chars(",\"values\":");
        let p3 = match expect_lit(v, p2, &mv) {
            None => {
                return None;
            },
            Some(x) => x,
        };
        let ghost wvs: Option<StrListV> = match w@ {
            Some(BoolV::AnyIn { values, .. }) => Some(*values),
            Some(BoolV::AllIn { values, .. }) => Some(*values),
            _ => None,
        };
        let (values, p4) = match parse_strlist_at(v, p3, Ghost(wvs)) {
            None => {
                return None;
            },
            Some(x) => x,
        };
        let p5 = match eat(v, p4, '}') {
            None => {
                return None;
            },
            Some(x) => x,
        };
        match eat(v, p5, '}') {
            None => None,
            Some(np) => if any {
                Some((Bool::AnyIn { list, values }, np))
            } else {
                Some((Bool::AllIn { list, values }, np))
            },
        }
    } else if string_is(&tag, "json_pointer") {
        proof {
            if let Some(x) = w@ {
                match x {
                    BoolV::JsonPointer { pointer, value } => {
                        lemma_chain6(
                            v@,
                            pos as int,
                            tag_head("json_pointer"@),
                            "{\"pointer\":"@,
                            quoted(pointer),
                            ",\"value\":"@,
                            ser_str(*value),
                            seq!['}', '}'],
                        );
                        let off = pos + tag_head("json_pointer"@).len() + "{\"pointer\":"@.len()
                            + quoted(pointer).len() + ",\"value\":"@.len() + ser_str(
                            *value,
                        ).len();
                        assert(v@.skip(off)[0] == '}');
                        assert(v@.skip(off)[1] == '}');
                        assert(v@[off] == '}');
                        assert(v@[off + 1] == '}');
                    },
                    _ => {
                        assert(false);
                    },
                }
            }
        }
        let pk = crate::strutil::to_chars("{\"pointer\":");
        let p1 = match expect_lit(v, p0, &pk) {
            None => {
                return None;
            },
            Some(x) => x,
        };
        let ghost wp: Option<Seq<char>> = match w@ {
            Some(BoolV::JsonPointer { pointer, .. }) => Some(pointer),
            _ => None,
        };
        let (pointer, p2) = match read_string(v, p1, Ghost(wp)) {
            None => {
                return None;
            },
            Some(x) => x,
        };
        let mv = crate::strutil::to_chars(",\"value\":");
        let p3 = match expect_lit(v, p2, &mv) {
            None => {
                return None;
            },
            Some(x) => x,
        };
        let ghost wv: Option<StrV> = match w@ {
            Some(BoolV::JsonPointer { value, .. }) => Some(*value),
            _ => None,
        };
        let (value, p4) = match parse_str_at(v, p3, Ghost(wv)) {
            None => {
                return None;
            },
            Some(x) => x,
        };
        let p5 = match eat(v, p4, '}') {
            None => {
                return None;
            },
            Some(x) => x,
        };
        match eat(v, p5, '}') {
            None => None,
            Some(np) => Some((Bool::JsonPointer { pointer, value }, np)),
        }
    } else if string_is(&tag, "matches") {
        proof {
            if let Some(x) = w@ {
                match x {
                    BoolV::Matches(re, val) => {
                        lemma_chain6(
                            v@,
                            pos as int,
                            tag_head("matches"@),
                            seq!['['],
                            quoted(re),
                            seq![','],
                            ser_str(*val),
                            seq![']', '}'],
                        );
                        assert(v@.skip(pos + tag_head("matches"@).len())[0] == '[');
                        assert(v@[pos + tag_head("matches"@).len()] == '[');
                        let moff = pos + tag_head("matches"@).len() + 1 + quoted(re).len();
                        assert(v@.skip(moff)[0] == ',');
                        assert(v@[moff] == ',');
                        let off = moff + 1 + ser_str(*val).len();
                        assert(v@.skip(off)[0] == ']');
                        assert(v@.skip(off)[1] == '}');
                        assert(v@[off] == ']');
                        assert(v@[off + 1] == '}');
                    },
                    _ => {
                        assert(false);
                    },
                }
            }
        }
        let p1 = match eat(v, p0, '[') {
            None => {
                return None;
            },
            Some(x) => x,
        };
        let ghost wre: Option<Seq<char>> = match w@ {
            Some(BoolV::Matches(re, _)) => Some(re),
            _ => None,
        };
        let (re, p2) = match read_string(v, p1, Ghost(wre)) {
            None => {
                return None;
            },
            Some(x) => x,
        };
        let p3 = match eat(v, p2, ',') {
            None => {
                return None;
            },
            Some(x) => x,
        };
        let ghost wval: Option<StrV> = match w@ {
            Some(BoolV::Matches(_, val)) => Some(*val),
            _ => None,
        };
        let (val, p4) = match parse_str_at(v, p3, Ghost(wval)) {
            None => {
                return None;
            },
            Some(x) => x,
        };
        let p5 = match eat(v, p4, ']') {
            None => {
                return None;
            },
            Some(x) => x,
        };
        match eat(v, p5, '}') {
            None => None,
            Some(np) => Some((Bool::Matches(re, val), np)),
        }
    } else if string_is(&tag, "str_eq") {
        proof {
            if let Some(x) = w@ {
                match x {
                    BoolV::StrEq(sa, sb) => {
                        lemma_chain6(
                            v@,
                            pos as int,
                            tag_head("str_eq"@),
                            seq!['['],
                            ser_str(*sa),
                            seq![','],
                            ser_str(*sb),
                            seq![']', '}'],
                        );
                        assert(v@.skip(pos + tag_head("str_eq"@).len())[0] == '[');
                        assert(v@[pos + tag_head("str_eq"@).len()] == '[');
                        let moff = pos + tag_head("str_eq"@).len() + 1 + ser_str(*sa).len();
                        assert(v@.skip(moff)[0] == ',');
                        assert(v@[moff] == ',');
                        let off = moff + 1 + ser_str(*sb).len();
                        assert(v@.skip(off)[0] == ']');
                        assert(v@.skip(off)[1] == '}');
                        assert(v@[off] == ']');
                        assert(v@[off + 1] == '}');
                    },
                    _ => {
                        assert(false);
                    },
                }
            }
        }
        let p1 = match eat(v, p0, '[') {
            None => {
                return None;
            },
            Some(x) => x,
        };
        let ghost wa: Option<StrV> = match w@ {
            Some(BoolV::StrEq(sa, _)) => Some(*sa),
            _ => None,
        };
        let (a, p2) = match parse_str_at(v, p1, Ghost(wa)) {
            None => {
                return None;
            },
            Some(x) => x,
        };
        let p3 = match eat(v, p2, ',') {
            None => {
                return None;
            },
            Some(x) => x,
        };
        let ghost wb: Option<StrV> = match w@ {
            Some(BoolV::StrEq(_, sb)) => Some(*sb),
            _ => None,
        };
        let (b, p4) = match parse_str_at(v, p3, Ghost(wb)) {
            None => {
                return None;
            },
            Some(x) => x,
        };
        let p5 = match eat(v, p4, ']') {
            None => {
                return None;
            },
            Some(x) => x,
        };
        match eat(v, p5, '}') {
            None => None,
            Some(np) => Some((Bool::StrEq(a, b), np)),
        }
    } else if string_is(&tag, "num_eq") || string_is(&tag, "gt") || string_is(&tag, "lt")
        || string_is(&tag, "gte") || string_is(&tag, "lte") {
        proof {
            if let Some(x) = w@ {
                match x {
                    BoolV::NumEq(na, nb) => {
                        lemma_chain6(
                            v@,
                            pos as int,
                            tag_head("num_eq"@),
                            seq!['['],
                            ser_num(*na),
                            seq![','],
                            ser_num(*nb),
                            seq![']', '}'],
                        );
                    },
                    BoolV::Gt(na, nb) => {
                        lemma_chain6(
                            v@,
                            pos as int,
                            tag_head("gt"@),
                            seq!['['],
                            ser_num(*na),
                            seq![','],
                            ser_num(*nb),
                            seq![']', '}'],
                        );
                    },
                    BoolV::Lt(na, nb) => {
                        lemma_chain6(
                            v@,
                            pos as int,
                            tag_head("lt"@),
                            seq!['['],
                            ser_num(*na),
                            seq![','],
                            ser_num(*nb),
                            seq![']', '}'],
                        );
                    },
                    BoolV::Gte(na, nb) => {
                        lemma_chain6(
                            v@,
                            pos as int,
                            tag_head("gte"@),
                            seq!['['],
                            ser_num(*na),
                            seq![','],
                            ser_num(*nb),
                            seq![']', '}'],
                        );
                    },
                    BoolV::Lte(na, nb) => {
                        lemma_chain6(
                            v@,
                            pos as int,
                            tag_head("lte"@),
                            seq!['['],
                            ser_num(*na),
                            seq![','],
                            ser_num(*nb),
                            seq![']', '}'],
                        );
                    },
                    _ => {
                        assert(false);
                    },
                }
                match x {
                    BoolV::NumEq(na, nb) | BoolV::Gt(na, nb) | BoolV::Lt(na, nb) | BoolV::Gte(
                        na,
                        nb,
                    ) | BoolV::Lte(na, nb) => {
                        let hl = tag_head(bool_tag(x)).len();
                        assert(v@.skip(pos + hl)[0] == '[');
                        assert(v@[pos + hl] == '[');
                        let moff = pos + hl + 1 + ser_num(*na).len();
                        assert(v@.skip(moff)[0] == ',');
                        assert(v@[moff] == ',');
                        let off = moff + 1 + ser_num(*nb).len();
                        assert(v@.skip(off)[0] == ']');
                        assert(v@.skip(off)[1] == '}');
                        assert(v@[off] == ']');
                        assert(v@[off + 1] == '}');
                    },
                    _ => {},
                }
            }
        }
        let p1 = match eat(v, p0, '[') {
            None => {
                return None;
            },
            Some(x) => x,
        };
        let ghost wa: Option<NumV> = match w@ {
            Some(BoolV::NumEq(na, _)) => Some(*na),
            Some(BoolV::Gt(na, _)) => Some(*na),
            Some(BoolV::Lt(na, _)) => Some(*na),
            Some(BoolV::Gte(na, _)) => Some(*na),
            Some(BoolV::Lte(na, _)) => Some(*na),
            _ => None,
        };
        let (a, p2) = match parse_num_at(v, p1, Ghost(wa)) {
            None => {
                return None;
            },
            Some(x) => x,
        };
        let p3 = match eat(v, p2, ',') {
            None => {
                return None;
            },
            Some(x) => x,
        };
        let ghost wb: Option<NumV> = match w@ {
            Some(BoolV::NumEq(_, nb)) => Some(*nb),
            Some(BoolV::Gt(_, nb)) => Some(*nb),
            Some(BoolV::Lt(_, nb)) => Some(*nb),
            Some(BoolV::Gte(_, nb)) => Some(*nb),
            Some(BoolV::Lte(_, nb)) => Some(*nb),
            _ => None,
        };
        let (b, p4) = match parse_num_at(v, p3, Ghost(wb)) {
            None => {
                return None;
            },
            Some(x) => x,
        };
        let p5 = match eat(v, p4, ']') {
            None => {
                return None;
            },
            Some(x) => x,
        };
        match eat(v, p5, '}') {
            None => None,
            Some(np) => if string_is(&tag, "num_eq") {
                Some((Bool::NumEq(a, b), np))
            } else if string_is(&tag, "gt") {
                Some((Bool::Gt(a, b), np))
            } else if string_is(&tag, "lt") {
                Some((Bool::Lt(a, b), np))
            } else if string_is(&tag, "gte") {
                Some((Bool::Gte(a, b), np))
            } else {
                Some((Bool::Lte(a, b), np))
            },
        }
    } else if string_is(&tag, "not") {
        proof {
            if let Some(x) = w@ {
                match x {
                    BoolV::Not(y) => {
                        lemma_chain3(v@, pos as int, tag_head("not"@), ser_bool(*y), seq!['}']);
                        assert(v@.skip(pos + tag_head("not"@).len() + ser_bool(*y).len())[0]
                            == '}');
                        assert(v@[pos + tag_head("not"@).len() + ser_bool(*y).len()] == '}');
                    },
                    _ => {
                        assert(false);
                    },
                }
            }
        }
        let ghost wy: Option<BoolV> = match w@ {
            Some(BoolV::Not(y)) => Some(*y),
            _ => None,
        };
        let (x, p1) = match parse_bool_at(v, p0, Ghost(wy)) {
            None => {
                return None;
            },
            Some(x) => x,
        };
        match eat(v, p1, '}') {
            None => None,
            Some(np) => Some((Bool::Not(Box::new(x)), np)),
        }
    } else if string_is(&tag, "and") || string_is(&tag, "or") {
        proof {
            if let Some(x) = w@ {
                match x {
                    BoolV::And(xs) => {
                        lemma_chain4(
                            v@,
                            pos as int,
                            tag_head("and"@),
                            seq!['['],
                            ser_bool_items(xs),
                            seq![']', '}'],
                        );
                    },
                    BoolV::Or(xs) => {
                        lemma_chain4(
                            v@,
                            pos as int,
                            tag_head("or"@),
                            seq!['['],
                            ser_bool_items(xs),
                            seq![']', '}'],
                        );
                    },
                    _ => {
                        assert(false);
                    },
                }
                if let Some(xs) = and_or_items(w@.unwrap()) {
                    let hl = tag_head(bool_tag(w@.unwrap())).len();
                    assert(v@.skip(pos + hl)[0] == '[');
                    assert(v@[pos + hl] == '[');
                    let toff = pos + hl + 1 + ser_bool_items(xs).len();
                    assert(v@.skip(toff)[0] == ']');
                    assert(v@.skip(toff)[1] == '}');
                    assert(v@[toff] == ']');
                    assert(v@[toff + 1] == '}');
                    if xs.len() > 0 {
                        lemma_bool_items_first(xs);
                        lemma_bool_shape(xs[0]);
                        assert(ser_bool_items(xs)[0] == '{');
                        assert(v@.skip(pos + hl + 1)[0] == '{');
                        assert(v@[pos + hl + 1] == '{');
                    } else {
                        reveal(crate::codec::ser_bool_items);
                        assert(ser_bool_items(xs).len() == 0);
                    }
                }
            }
        }
        let p1 = match eat(v, p0, '[') {
            None => {
                return None;
            },
            Some(x) => x,
        };
        let mut items: Vec<Bool> = Vec::new();
        let mut p: usize = p1;
        let ghost mut j: int = 0;
        if let Some(p2) = eat(v, p, ']') {
            match eat(v, p2, '}') {
                None => {
                    return None;
                },
                Some(np) => {
                    proof {
                        assert(bools_view(items@) =~= Seq::<BoolV>::empty());
                        lemma_bools_view_index(items@);
                        if let Some(x) = w@ {
                            if let Some(xs) = and_or_items(x) {
                                if xs.len() > 0 {
                                    assert(false);
                                } else {
                                    assert(xs =~= Seq::<BoolV>::empty());
                                }
                            }
                        }
                    }
                    if string_is(&tag, "and") {
                        return Some((Bool::And(items), np));
                    }
                    return Some((Bool::Or(items), np));
                },
            }
        }
        proof {
            if let Some(x) = w@ {
                if let Some(xs) = and_or_items(x) {
                    assert(xs.len() > 0);
                    assert(xs.skip(0) =~= xs);
                    assert(xs.take(0) =~= Seq::<BoolV>::empty());
                    assert(bools_view(items@) =~= Seq::<BoolV>::empty());
                }
            }
        }
        loop
            invariant
                pos < p <= v@.len(),
                forall|q: int| 0 <= q < items@.len() ==> wf_bool(
                    #[trigger] bool_view(items@[q]),
                ),
                w@ matches Some(x) ==> (and_or_items(x) matches Some(xs) && {
                    &&& 0 <= j < xs.len()
                    &&& bools_view(items@) == xs.take(j)
                    &&& begins_with(v@.skip(p as int), ser_bool_items(xs.skip(j)))
                    &&& p == pos + tag_head(bool_tag(x)).len() + 1 + (ser_bool_items(xs).len()
                        - ser_bool_items(xs.skip(j)).len())
                }),
            decreases v@.len() - p,
        {
            let ghost wi: Option<BoolV> = match w@ {
                Some(BoolV::And(xs)) => Some(xs[j]),
                Some(BoolV::Or(xs)) => Some(xs[j]),
                _ => None,
            };
            proof {
                if let Some(x) = w@ {
                    if let Some(xs) = and_or_items(x) {
                        let ws = xs.skip(j);
                        lemma_bool_items_first(ws);
                        assert(ws[0] == xs[j]);
                        assert(wf_bool(xs[j]));
                        lemma_bool_shape(xs[j]);
                        if ws.len() == 1 {
                            assert(ser_bool_items(ws) == ser_bool(xs[j]) + Seq::<char>::empty());
                            assert(ser_bool(xs[j]) + Seq::<char>::empty() =~= ser_bool(xs[j]));
                            lemma_chain2(v@, p as int, ser_bool(xs[j]), Seq::<char>::empty());
                        } else {
                            assert(ws.skip(1) =~= xs.skip(j + 1));
                            lemma_chain3(
                                v@,
                                p as int,
                                ser_bool(xs[j]),
                                seq![','],
                                ser_bool_items(xs.skip(j + 1)),
                            );
                            assert(v@.skip(p + ser_bool(xs[j]).len())[0] == ',');
                            assert(v@[p + ser_bool(xs[j]).len()] == ',');
                        }
                    }
                }
            }
            let ghost iv0 = items@;
            let (x, p2) = match parse_bool_at(v, p, Ghost(wi)) {
                None => {
                    return None;
                },
                Some(t) => t,
            };
            items.push(x);
            proof {
                lemma_bools_view_push(iv0, x);
            }
            if let Some(p3) = eat(v, p2, ',') {
                proof {
                    if let Some(xx) = w@ {
                        if let Some(xs) = and_or_items(xx) {
                            assert(xs.skip(j).len() > 1);
                            assert(xs.take(j + 1) =~= xs.take(j).push(xs[j]));
                            j = j + 1;
                        }
                    }
                }
                p = p3;
            } else {
                let p3 = match eat(v, p2, ']') {
                    None => {
                        return None;
                    },
                    Some(x) => x,
                };
                match eat(v, p3, '}') {
                    None => {
                        return None;
                    },
                    Some(np) => {
                        proof {
                            lemma_bools_view_index(items@);
                            if let Some(xx) = w@ {
                                if let Some(xs) = and_or_items(xx) {
                                    assert(xs.skip(j).len() == 1);
                                    assert(xs.take(j + 1) =~= xs.take(j).push(xs[j]));
                                    assert(xs.take(j + 1) =~= xs);
                                }
                            }
                        }
                        if string_is(&tag, "and") {
                            return Some((Bool::And(items), np));
                        }
                        return Some((Bool::Or(items), np));
                    },
                }
            }
        }
    } else {
        None
    }
}

/// Parses one feature at `pos`.
#[verifier::rlimit(100)]
fn parse_feature_at(v: &Vec<char>, pos: usize, w: Ghost<Option<FeatureV>>) -> (r: Option<
    (Feature, usize),
>)
    requires
        w@ matches Some(f) ==> pos <= v@.len() && wf_feature(f) && begins_with(
            v@.skip(pos as int),
            ser_feature(f),
        ),
    ensures
        r matches Some(p) ==> pos < p.1 <= v@.len(),
        r matches Some(p) ==> wf_feature(feature_view(p.0)),
        w@ matches Some(f) ==> (r matches Some(p) && feature_view(p.0) == f && p.1 == pos
            + ser_feature(f).len()),
    decreases v@.len() - pos,
{
    proof {
        if let Some(f) = w@ {
            lemma_feature_shape(f);
            lemma_key_lits();
            lemma_chain5(
                v@,
                pos as int,
                "{\"name\":"@,
                quoted(f.name),
                ",\"rule\":"@,
                ser_bool(f.rule),
                seq!['}'],
            );
            let off = pos + "{\"name\":"@.len() + quoted(f.name).len() + ",\"rule\":"@.len()
                + ser_bool(f.rule).len();
            assert(v@.skip(off)[0] == '}');
            assert(v@[off] == '}');
        }
    }
    let nk = crate::strutil::to_chars("{\"name\":");
    let p0 = match expect_lit(v, pos, &nk) {
        None => {
            return None;
        },
        Some(x) => x,
    };
    let ghost wn: Option<Seq<char>> = match w@ {
        Some(f) => Some(f.name),
        None => None,
    };
    let (name, p1) = match read_string(v, p0, Ghost(wn)) {
        None => {
            return None;
        },
        Some(x) => x,
    };
    let rk = crate::strutil::to_chars(",\"rule\":");
    let p2 = match expect_lit(v, p1, &rk) {
        None => {
            return None;
        },
        Some(x) => x,
    };
    let ghost wr: Option<BoolV> = match w@ {
        Some(f) => Some(f.rule),
        None => None,
    };
    let (rule, p3) = match parse_bool_at(v, p2, Ghost(wr)) {
        None => {
            return None;
        },
        Some(x) => x,
    };
    match eat(v, p3, '}') {
        None => None,
        Some(np) => Some((Feature { name, rule }, np)),
    }
}

/// Whether a `String` holds exactly the given text.
fn string_is(s: &String, lit: &str) -> (r: bool)
    ensures
        r == (s@ == lit@),
{
    let lc = crate::strutil::to_chars(lit);
    let sc = crate::strutil::to_chars(s.as_str());
    crate::strutil::chars_eq(&sc, &lc)
}

/// Reads an explicit configuration from its JSON text.
///
/// The reader accepts exactly the writer's language: a returned
/// configuration re-serializes to the input byte for byte, the
/// serialization of every configuration is accepted, and the result for
/// such a text is structurally the configuration that was written.
#[verifier::loop_isolation(false)]
#[verifier::rlimit(100)]
pub fn explicit_from_json(json: &str) -> (r: Option<crate::explicit::Config>)
    ensures
        r matches Some(cfg) ==> ser_explicit(cfg.view_spec()) == json@,
        forall|c: Seq<StrListV>| #[trigger] ser_explicit(c) == json@ ==> (r matches Some(cfg)
            && cfg.view_spec() == c),
{
    let ghost wopt: Option<Seq<StrListV>> = if exists|c: Seq<StrListV>|
        ser_explicit(c) == json@ {
        Some(choose|c: Seq<StrListV>| ser_explicit(c) == json@)
    } else {
        None
    };
    let v = crate::strutil::to_chars(json);
    proof {
        if let Some(c) = wopt {
            assert(ser_explicit(c) == v@);
            assert(v@.skip(0) =~= v@);
            assert(ser_explicit(c) =~= seq!['['] + (ser_strlist_items(c) + seq![']']));
            assert(begins_with(v@.skip(0), seq!['['] + (ser_strlist_items(c) + seq![']']))) by {
                assert(v@ == seq!['['] + (ser_strlist_items(c) + seq![']']));
            }
            lemma_chain3(v@, 0, seq!['['], ser_strlist_items(c), seq![']']);
            assert(v@.len() == 1 + ser_strlist_items(c).len() + 1);
            assert(v@.skip(0)[0] == '[');
            assert(v@[0] == '[');
            let toff: int = 1int + ser_strlist_items(c).len() as int;
            assert(v@.skip(toff)[0] == ']');
            assert(v@[toff] == ']');
            if c.len() > 0 {
                lemma_strlist_items_first(c);
                lemma_strlist_shape(c[0]);
                assert(ser_strlist_items(c)[0] == '{');
                assert(v@.skip(1)[0] == '{');
                assert(v@[1] == '{');
            } else {
                reveal(crate::codec::ser_strlist_items);
                assert(ser_strlist_items(c).len() == 0);
            }
        }
    }
    let p0 = match eat(&v, 0, '[') {
        None => {
            return None;
        },
        Some(x) => x,
    };
    let mut items: Vec<StrList> = Vec::new();
    let mut p: usize = p0;
    let mut closed = false;
    let ghost mut j: int = 0;
    if let Some(p1) = eat(&v, p, ']') {
        p = p1;
        closed = true;
        proof {
            if let Some(c) = wopt {
                if c.len() > 0 {
                    assert(false);
                } else {
                    assert(c =~= Seq::<StrListV>::empty());
                    assert(strlists_view(items@) =~= Seq::<StrListV>::empty());
                }
            }
        }
    }
    proof {
        if let Some(c) = wopt {
            if !closed {
                assert(c.len() > 0);
                assert(c.skip(0) =~= c);
                assert(c.take(0) =~= Seq::<StrListV>::empty());
                assert(strlists_view(items@) =~= Seq::<StrListV>::empty());
            }
        }
    }
    while !closed
        invariant
            0 < p <= v@.len(),
            wopt matches Some(c) ==> (if closed {
                strlists_view(items@) == c && p == v@.len()
            } else {
                &&& 0 <= j < c.len()
                &&& strlists_view(items@) == c.take(j)
                &&& begins_with(v@.skip(p as int), ser_strlist_items(c.skip(j)))
                &&& p == 1 + (ser_strlist_items(c).len() - ser_strlist_items(c.skip(j)).len())
            }),
        decreases v@.len() - p + 1,
    {
        let ghost wi: Option<StrListV> = match wopt {
            Some(c) => Some(c[j]),
            None => None,
        };
        proof {
            if let Some(c) = wopt {
                let ws = c.skip(j);
                lemma_strlist_items_first(ws);
                assert(ws[0] == c[j]);
                if ws.len() == 1 {
                    assert(ser_strlist_items(ws) == ser_strlist(c[j]) + Seq::<char>::empty());
                    assert(ser_strlist(c[j]) + Seq::<char>::empty() =~= ser_strlist(c[j]));
                    lemma_chain2(v@, p as int, ser_strlist(c[j]), Seq::<char>::empty());
                } else {
                    assert(ws.skip(1) =~= c.skip(j + 1));
                    lemma_chain3(
                        v@,
                        p as int,
                        ser_strlist(c[j]),
                        seq![','],
                        ser_strlist_items(c.skip(j + 1)),
                    );
                    assert(v@.skip(p + ser_strlist(c[j]).len())[0] == ',');
                    assert(v@[p + ser_strlist(c[j]).len()] == ',');
                }
            }
        }
        let ghost iv0 = items@;
        let (x, p1) = match parse_strlist_at(&v, p, Ghost(wi)) {
            None => {
                return None;
            },
            Some(x) => x,
        };
        items.push(x);
        proof {
            lemma_strlists_view_index(iv0);
            assert(strlists_view(items@) =~= strlists_view(iv0).push(strlist_view(x))) by {
                assert(items@.drop_last() =~= iv0);
                assert(items@.last() == x);
            }
        }
        if let Some(p2) = eat(&v, p1, ',') {
            proof {
                if let Some(c) = wopt {
                    assert(c.skip(j).len() > 1);
                    assert(c.take(j + 1) =~= c.take(j).push(c[j]));
                    j = j + 1;
                }
            }
            p = p2;
        } else {
            let p2 = match eat(&v, p1, ']') {
                None => {
                    return None;
                },
                Some(x) => x,
            };
            proof {
                if let Some(c) = wopt {
                    assert(c.skip(j).len() == 1);
                    assert(c.take(j + 1) =~= c.take(j).push(c[j]));
                    assert(c.take(j + 1) =~= c);
                }
            }
            p = p2;
            closed = true;
        }
    }
    if p != v.len() {
        return None;
    }
    let cfg = crate::explicit::Config(items);
    let back = explicit_to_json(&cfg);
    let bc = crate::strutil::to_chars(back.as_str());
    if crate::strutil::chars_eq(&bc, &v) {
        proof {
            if let Some(c) = wopt {
                assert(cfg.view_spec() == c);
                assert forall|c2: Seq<StrListV>| #[trigger] ser_explicit(c2) == json@ implies
                    cfg.view_spec() == c2 by {
                    lemma_ser_explicit_inj(c2, c);
                }
            }
        }
        Some(cfg)
    } else {
        None
    }
}

/// Reads an implicit configuration from its JSON text.
///
/// The reader accepts exactly the writer's language: a returned
/// configuration re-serializes to the input byte for byte, the
/// serialization of every well-formed configuration (one whose numeric
/// constants are numeric literals) is accepted, and the result for such a
/// text is structurally the configuration that was written.
#[verifier::loop_isolation(false)]
#[verifier::rlimit(100)]
pub fn implicit_from_json(json: &str) -> (r: Option<crate::implicit::Config>)
    ensures
        r matches Some(cfg) ==> ser_implicit(cfg.view_spec()) == json@ && wf_features(
            cfg.view_spec(),
        ),
        forall|c: Seq<FeatureV>| wf_features(c) && #[trigger] ser_implicit(c) == json@ ==> (r
            matches Some(cfg) && cfg.view_spec() == c),
{
    let ghost wopt: Option<Seq<FeatureV>> = if exists|c: Seq<FeatureV>|
        wf_features(c) && ser_implicit(c) == json@ {
        Some(choose|c: Seq<FeatureV>| wf_features(c) && ser_implicit(c) == json@)
    } else {
        None
    };
    let v = crate::strutil::to_chars(json);
    proof {
        if let Some(c) = wopt {
            assert(ser_implicit(c) == v@);
            assert(v@.skip(0) =~= v@);
            assert(ser_implicit(c) =~= seq!['['] + (ser_feature_items(c) + seq![']']));
            assert(begins_with(v@.skip(0), seq!['['] + (ser_feature_items(c) + seq![']']))) by {
                assert(v@ == seq!['['] + (ser_feature_items(c) + seq![']']));
            }
            lemma_chain3(v@, 0, seq!['['], ser_feature_items(c), seq![']']);
            assert(v@.len() == 1 + ser_feature_items(c).len() + 1);
            assert(v@.skip(0)[0] == '[');
            assert(v@[0] == '[');
            let toff: int = 1int + ser_feature_items(c).len() as int;
            assert(v@.skip(toff)[0] == ']');
            assert(v@[toff] == ']');
            if c.len() > 0 {
                lemma_feature_items_first(c);
                lemma_feature_shape(c[0]);
                assert(ser_feature_items(c)[0] == '{');
                assert(v@.skip(1)[0] == '{');
                assert(v@[1] == '{');
            } else {
                reveal(crate::codec::ser_feature_items);
                assert(ser_feature_items(c).len() == 0);
            }
        }
    }
    let p0 = match eat(&v, 0, '[') {
        None => {
            return None;
        },
        Some(x) => x,
    };
    let mut items: Vec<Feature> = Vec::new();
    let mut p: usize = p0;
    let mut closed = false;
    let ghost mut j: int = 0;
    if let Some(p1) = eat(&v, p, ']') {
        p = p1;
        closed = true;
        proof {
            if let Some(c) = wopt {
                if c.len() > 0 {
                    assert(false);
                } else {
                    assert(c =~= Seq::<FeatureV>::empty());
                    assert(features_view(items@) =~= Seq::<FeatureV>::empty());
                }
            }
        }
    }
    proof {
        if let Some(c) = wopt {
            if !closed {
                assert(c.len() > 0);
                assert(c.skip(0) =~= c);
                assert(c.take(0) =~= Seq::<FeatureV>::empty());
                assert(features_view(items@) =~= Seq::<FeatureV>::empty());
            }
        }
    }
    while !closed
        invariant
            0 < p <= v@.len(),
            forall|q: int| 0 <= q < items@.len() ==> wf_feature(
                #[trigger] feature_view(items@[q]),
            ),
            wopt matches Some(c) ==> (if closed {
                features_view(items@) == c && p == v@.len()
            } else {
                &&& 0 <= j < c.len()
                &&& features_view(items@) == c.take(j)
                &&& begins_with(v@.skip(p as int), ser_feature_items(c.skip(j)))
                &&& p == 1 + (ser_feature_items(c).len() - ser_feature_items(c.skip(j)).len())
            }),
        decreases v@.len() - p + 1,
    {
        let ghost wi: Option<FeatureV> = match wopt {
            Some(c) => Some(c[j]),
            None => None,
        };
        proof {
            if let Some(c) = wopt {
                let ws = c.skip(j);
                lemma_feature_items_first(ws);
                assert(ws[0] == c[j]);
                assert(wf_feature(c[j]));
                if ws.len() == 1 {
                    assert(ser_feature_items(ws) == ser_feature(c[j]) + Seq::<char>::empty());
                    assert(ser_feature(c[j]) + Seq::<char>::empty() =~= ser_feature(c[j]));
                    lemma_chain2(v@, p as int, ser_feature(c[j]), Seq::<char>::empty());
                } else {
                    assert(ws.skip(1) =~= c.skip(j + 1));
                    lemma_chain3(
                        v@,
                        p as int,
                        ser_feature(c[j]),
                        seq![','],
                        ser_feature_items(c.skip(j + 1)),
                    );
                    assert(v@.skip(p + ser_feature(c[j]).len())[0] == ',');
                    assert(v@[p + ser_feature(c[j]).len()] == ',');
                }
            }
        }
        let ghost iv0 = items@;
        let (x, p1) = match parse_feature_at(&v, p, Ghost(wi)) {
            None => {
                return None;
            },
            Some(x) => x,
        };
        items.push(x);
        proof {
            lemma_features_view_index(iv0);
            assert(features_view(items@) =~= features_view(iv0).push(feature_view(x))) by {
                assert(items@.drop_last() =~= iv0);
                assert(items@.last() == x);
            }
        }
        if let Some(p2) = eat(&v, p1, ',') {
            proof {
                if let Some(c) = wopt {
                    assert(c.skip(j).len() > 1);
                    assert(c.take(j + 1) =~= c.take(j).push(c[j]));
                    j = j + 1;
                }
            }
            p = p2;
        } else {
            let p2 = match eat(&v, p1, ']') {
                None => {
                    return None;
                },
                Some(x) => x,
            };
            proof {
                if let Some(c) = wopt {
                    assert(c.skip(j).len() == 1);
                    assert(c.take(j + 1) =~= c.take(j).push(c[j]));
                    assert(c.take(j + 1) =~= c);
                }
            }
            p = p2;
            closed = true;
        }
    }
    if p != v.len() {
        return None;
    }
    let cfg = crate::implicit::Config(items);
    let back = implicit_to_json(&cfg);
    let bc = crate::strutil::to_chars(back.as_str());
    if crate::strutil::chars_eq(&bc, &v) {
        proof {
            lemma_features_view_index(items@);
            if let Some(c) = wopt {
                assert(cfg.view_spec() == c);
                assert forall|c2: Seq<FeatureV>|
                    wf_features(c2) && #[trigger] ser_implicit(c2) == json@ implies cfg.view_spec()
                    == c2 by {
                    lemma_ser_implicit_inj(c2, c);
                }
            }
        }
        Some(cfg)
    } else {
        None
    }
}

} // verus!\n