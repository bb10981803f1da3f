//! Evaluation of the four expression sorts against a request.
//!
//! Each sort has a specification evaluator over the ghost mirror types and
//! an executable evaluator proved to implement it. Errors never unwind
//! across sibling expressions: combinators propagate the first failure of a
//! child, and the targeting layer absorbs failures wholesale.

use crate::expression::{
    bool_view, bools_view, lemma_bools_view_index, num_view, str_view, strlist_view, Bool, BoolV,
    Num, NumV, Str, StrList, StrListV, StrV,
};
use crate::num::{
    dec_cmp, dec_lt, dec_normalized, lemma_norm_dec_normalized, make_dec, norm_dec, parse_dec,
    parse_dec_chars, Dec, DecV,
};
use crate::qvalue::{parse_q_value, qvalue_spec};
use crate::request::Request;
use crate::strutil::{chars_eq, split_chars, split_spec, to_chars};
use crate::trusted::{
    b64_decode, b64_of, chars_to_string, json_bool_at, json_number_at, json_ptr_bool,
    json_ptr_number, json_ptr_string, json_string_at, json_wf, re_captures, re_caps, re_is_match,
    re_match, regex_ok, ua_of, ua_parse, utf8_of, utf8_string,
};
use vstd::prelude::*;

verus! {

broadcast use
    vstd::std_specs::vec::axiom_vec_index_decreases,
    vstd::std_specs::vec::axiom_vec_decreases_to_view,
    vstd::seq::axiom_seq_index_decreases,
    vstd::seq::axiom_seq_subrange_decreases,
;

/// The request as seen by specifications.
pub type ReqV = Map<Seq<char>, Seq<char>>;

/// An evaluation failure, by kind.
#[derive(Debug, PartialEq, Eq)]
pub enum EvalError {
    /// The named attribute is not in the request map.
    MissingAttribute(String),
    /// A value failed to parse as the expected sort (number, base64,
    /// JSON, UTF-8).
    ParseFailure,
    /// A malformed regular expression pattern.
    RegexError,
    /// A pattern that compiled but matched nothing where a match was
    /// required.
    RegexMiss,
    /// A JSON pointer that does not resolve to the expected sort.
    TypeMismatch,
    /// `First` or `Last` of an empty list.
    EmptyList,
    /// An unparseable `user-agent` header, or a named cookie that the
    /// `cookie` header does not carry.
    MalformedHeader,
}

/// Ghost mirror of `EvalError`.
pub ghost enum EvalErrV {
    MissingAttribute(Seq<char>),
    ParseFailure,
    RegexError,
    RegexMiss,
    TypeMismatch,
    EmptyList,
    MalformedHeader,
}

/// The mirror of an evaluation failure.
pub open spec fn err_view(e: EvalError) -> EvalErrV {
    match e {
        EvalError::MissingAttribute(k) => EvalErrV::MissingAttribute(k@),
        EvalError::ParseFailure => EvalErrV::ParseFailure,
        EvalError::RegexError => EvalErrV::RegexError,
        EvalError::RegexMiss => EvalErrV::RegexMiss,
        EvalError::TypeMismatch => EvalErrV::TypeMismatch,
        EvalError::EmptyList => EvalErrV::EmptyList,
        EvalError::MalformedHeader => EvalErrV::MalformedHeader,
    }
}

/// The mirror of a boolean outcome.
pub open spec fn bres_view(r: Result<bool, EvalError>) -> Result<bool, EvalErrV> {
    match r {
        Result::Ok(b) => Result::Ok(b),
        Result::Err(e) => Result::Err(err_view(e)),
    }
}

/// The mirror of a string outcome.
pub open spec fn sres_view(r: Result<String, EvalError>) -> Result<Seq<char>, EvalErrV> {
    match r {
        Result::Ok(s) => Result::Ok(s@),
        Result::Err(e) => Result::Err(err_view(e)),
    }
}

/// The mirror of a string-list outcome.
pub open spec fn lres_view(r: Result<Vec<String>, EvalError>) -> Result<
    Seq<Seq<char>>,
    EvalErrV,
> {
    match r {
        Result::Ok(v) => Result::Ok(v.deep_view()),
        Result::Err(e) => Result::Err(err_view(e)),
    }
}

/// The mirror of a numeric outcome.
pub open spec fn nres_view(r: Result<Dec, EvalError>) -> Result<DecV, EvalErrV> {
    match r {
        Result::Ok(d) => Result::Ok(d@),
        Result::Err(e) => Result::Err(err_view(e)),
    }
}

/// The offset basis and prime of the 64-bit FNV-1a hash, folded over the
/// code points of a string. The hash is fixed by this definition: rank
/// values can be predicted offline.
pub open spec fn fnv_step(h: u64, c: char) -> u64 {
    (((h ^ ((c as u32) as u64)) as u128) * 0x100000001b3) as u64
}

/// The deterministic 64-bit hash behind `Rank`.
pub open spec fn rank_hash(s: Seq<char>) -> u64
    decreases s.len(),
{
    if s.len() == 0 {
        0xcbf29ce484222325u64
    } else {
        fnv_step(rank_hash(s.drop_last()), s.last())
    }
}

/// The three digits of a value below one thousand.
pub open spec fn rank_digits(t: int) -> Seq<u8> {
    seq![(t / 100) as u8, ((t / 10) % 10) as u8, (t % 10) as u8]
}

/// The rank of a string: hash modulo 1000, shown with one decimal place,
/// hence a value in [0, 100).
pub open spec fn rank_dec(s: Seq<char>) -> DecV {
    norm_dec(false, rank_digits(rank_hash(s) as int % 1000), 2)
}

/// The decimal one hundred.
pub open spec fn hundred_dec() -> DecV {
    DecV { neg: false, digits: seq![1u8], exp: 3 }
}

/// Rank range: for every string, the rank is at least zero and strictly
/// below one hundred.
pub proof fn lemma_rank_range(s: Seq<char>)
    ensures
        rank_dec(s).neg == false,
        dec_lt(rank_dec(s), hundred_dec()),
{
    let t = rank_hash(s) as int % 1000;
    assert(0 <= t < 1000);
    let ds = rank_digits(t);
    assert(ds[0] < 10 && ds[1] < 10 && ds[2] < 10);
    crate::num::lemma_norm_dec_bounds(false, ds, 2);
}

/// Empty-input split: splitting an empty string yields the empty list, not
/// a list holding one empty token, whatever the separator.
pub proof fn lemma_split_empty_input(separator: Seq<char>, value: Box<StrV>, req: ReqV)
    requires
        eval_str_v(*value, req) == Result::<Seq<char>, EvalErrV>::Ok(Seq::<char>::empty()),
    ensures
        eval_strlist_v(StrListV::Split { separator, value }, req) == Result::<
            Seq<Seq<char>>,
            EvalErrV,
        >::Ok(Seq::<Seq<char>>::empty()),
{
}

/// The value of the named cookie among `k=v` pairs, later pairs winning;
/// pairs without `=` are ignored.
pub open spec fn cookie_find(pairs: Seq<Seq<char>>, name: Seq<char>) -> Option<Seq<char>>
    decreases pairs.len(),
{
    if pairs.len() == 0 {
        None
    } else {
        let items = split_spec(pairs.last(), seq!['=']);
        if items.len() >= 2 && items[0] == name {
            Some(items[1])
        } else {
            cookie_find(pairs.drop_last(), name)
        }
    }
}

/// The outcome of a cookie lookup: the `cookie` header parsed as
/// `k=v; k=v` pairs, the named value returned.
pub open spec fn cookie_eval(req: ReqV, name: Seq<char>) -> Result<Seq<char>, EvalErrV> {
    if !req.contains_key("cookie"@) {
        Result::Err(EvalErrV::MissingAttribute("cookie"@))
    } else {
        match cookie_find(split_spec(req["cookie"@], seq![';', ' ']), name) {
            Option::Some(v) => Result::Ok(v),
            Option::None => Result::Err(EvalErrV::MalformedHeader),
        }
    }
}

/// The outcome of a user-agent derivation; `sel` picks the browser name
/// (0), version (1) or operating system (2).
pub open spec fn ua_eval(req: ReqV, sel: int) -> Result<Seq<char>, EvalErrV> {
    if !req.contains_key("user-agent"@) {
        Result::Err(EvalErrV::MissingAttribute("user-agent"@))
    } else {
        match ua_of(req["user-agent"@]) {
            Option::None => Result::Err(EvalErrV::MalformedHeader),
            Option::Some(t) => Result::Ok(
                if sel == 0 {
                    t.0
                } else if sel == 1 {
                    t.1
                } else {
                    t.2
                },
            ),
        }
    }
}

/// What splitting at an empty separator yields: an empty piece, each
/// character alone, and an empty piece.
pub open spec fn split_empty_sep(s: Seq<char>) -> Seq<Seq<char>> {
    seq![Seq::<char>::empty()] + Seq::new(s.len(), |i: int| seq![s[i]]) + seq![
        Seq::<char>::empty()
    ]
}

/// Some member of `vs` lies in `l`.
pub open spec fn any_in_spec(l: Seq<Seq<char>>, vs: Seq<Seq<char>>) -> bool {
    exists|i: int| 0 <= i < vs.len() && l.contains(#[trigger] vs[i])
}

/// Every member of `vs` lies in `l`.
pub open spec fn all_in_spec(l: Seq<Seq<char>>, vs: Seq<Seq<char>>) -> bool {
    forall|i: int| 0 <= i < vs.len() ==> l.contains(#[trigger] vs[i])
}

/// The capture groups that participated in a match, in order.
pub open spec fn caps_keep(gs: Seq<Option<Seq<char>>>) -> Seq<Seq<char>>
    decreases gs.len(),
{
    if gs.len() == 0 {
        Seq::empty()
    } else {
        caps_keep(gs.drop_last()) + (match gs.last() {
            Option::Some(g) => seq![g],
            Option::None => Seq::<Seq<char>>::empty(),
        })
    }
}

/// The specification evaluator for the boolean sort.
pub open spec fn eval_bool_v(e: BoolV, req: ReqV) -> Result<bool, EvalErrV>
    decreases e,
{
    match e {
        BoolV::Constant(b) => Result::Ok(b),
        BoolV::Attribute(k) => if req.contains_key(k) {
            Result::Ok(true)
        } else {
            Result::Err(EvalErrV::MissingAttribute(k))
        },
        BoolV::In { list, value } => match eval_strlist_v(*list, req) {
            Result::Err(er) => Result::Err(er),
            Result::Ok(l) => match eval_str_v(*value, req) {
                Result::Err(er) => Result::Err(er),
                Result::Ok(v) => Result::Ok(l.contains(v)),
            },
        },
        BoolV::AnyIn { list, values } => match eval_strlist_v(*list, req) {
            Result::Err(er) => Result::Err(er),
            Result::Ok(l) => match eval_strlist_v(*values, req) {
                Result::Err(er) => Result::Err(er),
                Result::Ok(vs) => Result::Ok(any_in_spec(l, vs)),
            },
        },
        BoolV::AllIn { list, values } => match eval_strlist_v(*list, req) {
            Result::Err(er) => Result::Err(er),
            Result::Ok(l) => match eval_strlist_v(*values, req) {
                Result::Err(er) => Result::Err(er),
                Result::Ok(vs) => Result::Ok(all_in_spec(l, vs)),
            },
        },
        BoolV::JsonPointer { pointer, value } => match eval_str_v(*value, req) {
            Result::Err(er) => Result::Err(er),
            Result::Ok(j) => if !json_wf(j) {
                Result::Err(EvalErrV::ParseFailure)
            } else {
                match json_ptr_bool(j, pointer) {
                    Option::Some(b) => Result::Ok(b),
                    Option::None => Result::Err(EvalErrV::TypeMismatch),
                }
            },
        },
        BoolV::Matches(re, v) => match eval_str_v(*v, req) {
            Result::Err(er) => Result::Err(er),
            Result::Ok(s) => if regex_ok(re) {
                Result::Ok(re_match(re, s))
            } else {
                Result::Err(EvalErrV::RegexError)
            },
        },
        BoolV::StrEq(a, b) => match eval_str_v(*a, req) {
            Result::Err(er) => Result::Err(er),
            Result::Ok(l) => match eval_str_v(*b, req) {
                Result::Err(er) => Result::Err(er),
                Result::Ok(r) => Result::Ok(l == r),
            },
        },
        BoolV::NumEq(a, b) => match eval_num_v(*a, req) {
            Result::Err(er) => Result::Err(er),
            Result::Ok(l) => match eval_num_v(*b, req) {
                Result::Err(er) => Result::Err(er),
                Result::Ok(r) => Result::Ok(l == r),
            },
        },
        BoolV::Gt(a, b) => match eval_num_v(*a, req) {
            Result::Err(er) => Result::Err(er),
            Result::Ok(l) => match eval_num_v(*b, req) {
                Result::Err(er) => Result::Err(er),
                Result::Ok(r) => Result::Ok(dec_lt(r, l)),
            },
        },
        BoolV::Lt(a, b) => match eval_num_v(*a, req) {
            Result::Err(er) => Result::Err(er),
            Result::Ok(l) => match eval_num_v(*b, req) {
                Result::Err(er) => Result::Err(er),
                Result::Ok(r) => Result::Ok(dec_lt(l, r)),
            },
        },
        BoolV::Gte(a, b) => match eval_num_v(*a, req) {
            Result::Err(er) => Result::Err(er),
            Result::Ok(l) => match eval_num_v(*b, req) {
                Result::Err(er) => Result::Err(er),
                Result::Ok(r) => Result::Ok(!dec_lt(l, r)),
            },
        },
        BoolV::Lte(a, b) => match eval_num_v(*a, req) {
            Result::Err(er) => Result::Err(er),
            Result::Ok(l) => match eval_num_v(*b, req) {
                Result::Err(er) => Result::Err(er),
                Result::Ok(r) => Result::Ok(!dec_lt(r, l)),
            },
        },
        BoolV::Not(x) => match eval_bool_v(*x, req) {
            Result::Err(er) => Result::Err(er),
            Result::Ok(b) => Result::Ok(!b),
        },
        BoolV::And(xs) => and_eval(xs, req),
        BoolV::Or(xs) => or_eval(xs, req),
    }
}

/// Conjunction over all children; a child's failure fails the node.
pub open spec fn and_eval(s: Seq<BoolV>, req: ReqV) -> Result<bool, EvalErrV>
    decreases s,
{
    if s.len() == 0 {
        Result::Ok(true)
    } else {
        match eval_bool_v(s[0], req) {
            Result::Err(er) => Result::Err(er),
            Result::Ok(b) => match and_eval(s.drop_first(), req) {
                Result::Err(er) => Result::Err(er),
                Result::Ok(rest) => Result::Ok(b && rest),
            },
        }
    }
}

/// Disjunction over all children; a child's failure fails the node.
pub open spec fn or_eval(s: Seq<BoolV>, req: ReqV) -> Result<bool, EvalErrV>
    decreases s,
{
    if s.len() == 0 {
        Result::Ok(false)
    } else {
        match eval_bool_v(s[0], req) {
            Result::Err(er) => Result::Err(er),
            Result::Ok(b) => match or_eval(s.drop_first(), req) {
                Result::Err(er) => Result::Err(er),
                Result::Ok(rest) => Result::Ok(b || rest),
            },
        }
    }
}

/// The specification evaluator for the string sort.
pub open spec fn eval_str_v(e: StrV, req: ReqV) -> Result<Seq<char>, EvalErrV>
    decreases e,
{
    match e {
        StrV::Constant(s) => Result::Ok(s),
        StrV::Attribute(k) => if req.contains_key(k) {
            Result::Ok(req[k])
        } else {
            Result::Err(EvalErrV::MissingAttribute(k))
        },
        StrV::Base64(v) => match eval_str_v(*v, req) {
            Result::Err(er) => Result::Err(er),
            Result::Ok(s) => match b64_of(s) {
                Option::None => Result::Err(EvalErrV::ParseFailure),
                Option::Some(bytes) => match utf8_of(bytes) {
                    Option::None => Result::Err(EvalErrV::ParseFailure),
                    Option::Some(t) => Result::Ok(t),
                },
            },
        },
        StrV::Extract { regex, value } => match eval_str_v(*value, req) {
            Result::Err(er) => Result::Err(er),
            Result::Ok(s) => if !regex_ok(regex) {
                Result::Err(EvalErrV::RegexError)
            } else {
                match re_caps(regex, s) {
                    Option::None => Result::Err(EvalErrV::RegexMiss),
                    Option::Some(gs) => if gs.len() > 1 && gs[1] is Some {
                        Result::Ok(gs[1]->0)
                    } else {
                        Result::Err(EvalErrV::RegexMiss)
                    },
                }
            },
        },
        StrV::Cookie(name) => cookie_eval(req, name),
        StrV::Browser => ua_eval(req, 0),
        StrV::BrowserVersion => ua_eval(req, 1),
        StrV::OperatingSystem => ua_eval(req, 2),
        StrV::JsonPointer { pointer, value } => match eval_str_v(*value, req) {
            Result::Err(er) => Result::Err(er),
            Result::Ok(j) => if !json_wf(j) {
                Result::Err(EvalErrV::ParseFailure)
            } else {
                match json_ptr_string(j, pointer) {
                    Option::Some(s) => Result::Ok(s),
                    Option::None => Result::Err(EvalErrV::TypeMismatch),
                }
            },
        },
        StrV::First(l) => match eval_strlist_v(*l, req) {
            Result::Err(er) => Result::Err(er),
            Result::Ok(v) => if v.len() > 0 {
                Result::Ok(v[0])
            } else {
                Result::Err(EvalErrV::EmptyList)
            },
        },
        StrV::Last(l) => match eval_strlist_v(*l, req) {
            Result::Err(er) => Result::Err(er),
            Result::Ok(v) => if v.len() > 0 {
                Result::Ok(v.last())
            } else {
                Result::Err(EvalErrV::EmptyList)
            },
        },
    }
}

/// The specification evaluator for the string-list sort.
pub open spec fn eval_strlist_v(e: StrListV, req: ReqV) -> Result<Seq<Seq<char>>, EvalErrV>
    decreases e,
{
    match e {
        StrListV::Constant(vs) => Result::Ok(vs),
        StrListV::Split { separator, value } => match eval_str_v(*value, req) {
            Result::Err(er) => Result::Err(er),
            Result::Ok(s) => if s.len() == 0 {
                Result::Ok(Seq::empty())
            } else if separator.len() == 0 {
                Result::Ok(split_empty_sep(s))
            } else {
                Result::Ok(split_spec(s, separator))
            },
        },
        StrListV::Extract { regex, value } => match eval_str_v(*value, req) {
            Result::Err(er) => Result::Err(er),
            Result::Ok(s) => if !regex_ok(regex) {
                Result::Err(EvalErrV::RegexError)
            } else {
                match re_caps(regex, s) {
                    Option::None => Result::Err(EvalErrV::RegexMiss),
                    Option::Some(gs) => {
                        let kept = caps_keep(gs);
                        if kept.len() == 0 {
                            Result::Ok(kept)
                        } else {
                            Result::Ok(kept.drop_first())
                        }
                    },
                }
            },
        },
        StrListV::HttpQualityValue(v) => match eval_str_v(*v, req) {
            Result::Err(er) => Result::Err(er),
            Result::Ok(s) => Result::Ok(qvalue_spec(s)),
        },
    }
}

/// The specification evaluator for the numeric sort.
pub open spec fn eval_num_v(e: NumV, req: ReqV) -> Result<DecV, EvalErrV>
    decreases e,
{
    match e {
        NumV::Constant(t) => match parse_dec(t) {
            Option::Some(d) => Result::Ok(d),
            Option::None => Result::Err(EvalErrV::ParseFailure),
        },
        NumV::Attribute(k) => if req.contains_key(k) {
            match parse_dec(req[k]) {
                Option::Some(d) => Result::Ok(d),
                Option::None => Result::Err(EvalErrV::ParseFailure),
            }
        } else {
            Result::Err(EvalErrV::MissingAttribute(k))
        },
        NumV::Rank(v) => match eval_str_v(*v, req) {
            Result::Err(er) => Result::Err(er),
            Result::Ok(s) => Result::Ok(rank_dec(s)),
        },
        NumV::JsonPointer { pointer, value } => match eval_str_v(*value, req) {
            Result::Err(er) => Result::Err(er),
            Result::Ok(j) => if !json_wf(j) {
                Result::Err(EvalErrV::ParseFailure)
            } else {
                match json_ptr_number(j, pointer) {
                    Option::None => Result::Err(EvalErrV::TypeMismatch),
                    Option::Some(txt) => match parse_dec(txt) {
                        Option::Some(d) => Result::Ok(d),
                        Option::None => Result::Err(EvalErrV::TypeMismatch),
                    },
                }
            },
        },
    }
}

/// Computes the deterministic 64-bit hash behind `Rank`.
fn rank_hash_chars(s: &Vec<char>) -> (h: u64)
    ensures
        h == rank_hash(s@),
{
    let mut h: u64 = 0xcbf29ce484222325;
    let mut i: usize = 0;
    proof {
        assert(s@.take(0) =~= Seq::<char>::empty());
    }
    while i < s.len()
        invariant
            0 <= i <= s@.len(),
            s@.len() == s.len(),
            h == rank_hash(s@.take(i as int)),
        decreases s@.len() - i,
    {
        let c = s[i];
        let m: u64 = h ^ ((c as u32) as u64);
        let prod: u128 = (m as u128) * 0x100000001b3u128;
        let h2: u64 = #[verifier::truncate] (prod as u64);
        proof {
            assert(s@.take(i + 1).drop_last() =~= s@.take(i as int));
            assert(s@.take(i + 1).last() == s@[i as int]);
            assert(h2 == fnv_step(h, c));
        }
        h = h2;
        i = i + 1;
    }
    proof {
        assert(s@.take(s@.len() as int) =~= s@);
    }
    h
}

/// A one-character string.
fn char_string(c: char) -> (r: String)
    ensures
        r@ == seq![c],
{
    let mut one: Vec<char> = Vec::new();
    one.push(c);
    proof {
        assert(one@ =~= seq![c]);
    }
    chars_to_string(&one)
}

/// Whether the list holds the given string.
fn contains_string(l: &Vec<String>, v: &String) -> (r: bool)
    ensures
        r == l.deep_view().contains(v@),
{
    let mut i: usize = 0;
    loop
        invariant
            0 <= i <= l.len(),
            l.deep_view().len() == l.len(),
            forall|j: int| 0 <= j < i ==> l.deep_view()[j] != v@,
        decreases l.len() - i,
    {
        if i == l.len() {
            proof {
                assert(!l.deep_view().contains(v@));
            }
            return false;
        }
        proof {
            assert(l@[i as int].deep_view() == l.deep_view()[i as int]);
        }
        if l[i] == *v {
            proof {
                assert(l.deep_view()[i as int] == v@);
            }
            return true;
        }
        i = i + 1;
    }
}

/// Whether any of `vs` is in `l`.
fn any_in(l: &Vec<String>, vs: &Vec<String>) -> (r: bool)
    ensures
        r == any_in_spec(l.deep_view(), vs.deep_view()),
{
    let mut i: usize = 0;
    loop
        invariant
            0 <= i <= vs.len(),
            vs.deep_view().len() == vs.len(),
            forall|j: int| 0 <= j < i ==> !l.deep_view().contains(#[trigger] vs.deep_view()[j]),
        decreases vs.len() - i,
    {
        if i == vs.len() {
            proof {
                assert(!any_in_spec(l.deep_view(), vs.deep_view()));
            }
            return false;
        }
        proof {
            assert(vs@[i as int].deep_view() == vs.deep_view()[i as int]);
        }
        if contains_string(l, &vs[i]) {
            proof {
                assert(any_in_spec(l.deep_view(), vs.deep_view()));
            }
            return true;
        }
        i = i + 1;
    }
}

/// Whether every one of `vs` is in `l`.
fn all_in(l: &Vec<String>, vs: &Vec<String>) -> (r: bool)
    ensures
        r == all_in_spec(l.deep_view(), vs.deep_view()),
{
    let mut i: usize = 0;
    loop
        invariant
            0 <= i <= vs.len(),
            vs.deep_view().len() == vs.len(),
            forall|j: int| 0 <= j < i ==> l.deep_view().contains(#[trigger] vs.deep_view()[j]),
        decreases vs.len() - i,
    {
        if i == vs.len() {
            proof {
                assert(all_in_spec(l.deep_view(), vs.deep_view()));
            }
            return true;
        }
        proof {
            assert(vs@[i as int].deep_view() == vs.deep_view()[i as int]);
        }
        if !contains_string(l, &vs[i]) {
            proof {
                assert(!all_in_spec(l.deep_view(), vs.deep_view()));
            }
            return false;
        }
        i = i + 1;
    }
}

/// Looks a named cookie up in the request's `cookie` header, parsed as
/// `k=v; k=v` pairs; a later pair of the same name wins.
pub fn get_cookie(request: &Request, name: &str) -> (r: Result<String, EvalError>)
    ensures
        sres_view(r) == cookie_eval(request@, name@),
{
    let header = match request.get("cookie") {
        None => {
            return Err(EvalError::MissingAttribute(String::from_str("cookie")));
        },
        Some(h) => h,
    };
    let hc = to_chars(header.as_str());
    let mut sep: Vec<char> = Vec::new();
    sep.push(';');
    sep.push(' ');
    proof {
        assert(sep@ =~= seq![';', ' ']);
    }
    let pairs = split_chars(&hc, &sep);
    let mut eq: Vec<char> = Vec::new();
    eq.push('=');
    proof {
        assert(eq@ =~= seq!['=']);
    }
    let namec = to_chars(name);
    let ghost pv = pairs.deep_view();
    let mut i: usize = pairs.len();
    proof {
        assert(pv.take(pairs.len() as int) =~= pv);
    }
    loop
        invariant
            pv == pairs.deep_view(),
            pv == split_spec(request@["cookie"@], seq![';', ' ']),
            request@.contains_key("cookie"@),
            pv.len() == pairs.len(),
            eq@ == seq!['='],
            namec@ == name@,
            0 <= i <= pairs.len(),
            cookie_find(pv, name@) == cookie_find(pv.take(i as int), name@),
        decreases i,
    {
        if i == 0 {
            proof {
                assert(pv.take(0) =~= Seq::<Seq<char>>::empty());
            }
            return Err(EvalError::MalformedHeader);
        }
        i = i - 1;
        proof {
            assert(pairs@[i as int].deep_view() == pv[i as int]);
            assert(pairs@[i as int].deep_view() =~= pairs@[i as int]@);
            assert(pv.take(i + 1).drop_last() =~= pv.take(i as int));
            assert(pv.take(i + 1).last() == pv[i as int]);
        }
        let items = split_chars(&pairs[i], &eq);
        proof {
            assert(items.deep_view().len() == items@.len());
            assert(items.deep_view().len() > 0);
            assert(items@[0].deep_view() == items.deep_view()[0]);
            assert(items@[0].deep_view() =~= items@[0]@);
        }
        if items.len() >= 2 && chars_eq(&items[0], &namec) {
            proof {
                assert(items@[1].deep_view() == items.deep_view()[1]);
                assert(items@[1].deep_view() =~= items@[1]@);
            }
            let v = chars_to_string(&items[1]);
            return Ok(v);
        }
    }
}

/// Derives a user-agent field: 0 the browser name, 1 the version, 2 the
/// operating system.
fn ua_field(request: &Request, sel: u8) -> (r: Result<String, EvalError>)
    requires
        sel < 3,
    ensures
        sres_view(r) == ua_eval(request@, sel as int),
{
    let ua = match request.get("user-agent") {
        None => {
            return Err(EvalError::MissingAttribute(String::from_str("user-agent")));
        },
        Some(h) => h,
    };
    match ua_parse(ua.as_str()) {
        None => Err(EvalError::MalformedHeader),
        Some((n, v, o)) => {
            if sel == 0 {
                Ok(n)
            } else if sel == 1 {
                Ok(v)
            } else {
                Ok(o)
            }
        },
    }
}

impl Bool {
    /// Evaluates a boolean expression against the request.
    #[verifier::rlimit(100)]
    pub fn eval(&self, request: &Request) -> (r: Result<bool, EvalError>)
        ensures
            bres_view(r) == eval_bool_v(bool_view(*self), request@),
        decreases *self,
    {
        match self {
            Bool::Constant(b) => Ok(*b),
            Bool::Attribute(k) => {
                if request.contains(k.as_str()) {
                    Ok(true)
                } else {
                    Err(EvalError::MissingAttribute(k.clone()))
                }
            },
            Bool::In { list, value } => match list.eval(request) {
                Err(er) => Err(er),
                Ok(l) => match value.eval(request) {
                    Err(er) => Err(er),
                    Ok(v) => Ok(contains_string(&l, &v)),
                },
            },
            Bool::AnyIn { list, values } => match list.eval(request) {
                Err(er) => Err(er),
                Ok(l) => match values.eval(request) {
                    Err(er) => Err(er),
                    Ok(vs) => Ok(any_in(&l, &vs)),
                },
            },
            Bool::AllIn { list, values } => match list.eval(request) {
                Err(er) => Err(er),
                Ok(l) => match values.eval(request) {
                    Err(er) => Err(er),
                    Ok(vs) => Ok(all_in(&l, &vs)),
                },
            },
            Bool::JsonPointer { pointer, value } => match value.eval(request) {
                Err(er) => Err(er),
                Ok(j) => match json_bool_at(j.as_str(), pointer.as_str()) {
                    Err(_) => Err(EvalError::ParseFailure),
                    Ok(None) => Err(EvalError::TypeMismatch),
                    Ok(Some(b)) => Ok(b),
                },
            },
            Bool::Matches(re, v) => match v.eval(request) {
                Err(er) => Err(er),
                Ok(s) => match re_is_match(re.as_str(), s.as_str()) {
                    None => Err(EvalError::RegexError),
                    Some(m) => Ok(m),
                },
            },
            Bool::StrEq(a, b) => match a.eval(request) {
                Err(er) => Err(er),
                Ok(l) => match b.eval(request) {
                    Err(er) => Err(er),
                    Ok(r2) => Ok(l == r2),
                },
            },
            Bool::NumEq(a, b) => match a.eval(request) {
                Err(er) => Err(er),
                Ok(l) => match b.eval(request) {
                    Err(er) => Err(er),
                    Ok(r2) => Ok(dec_cmp(&l, &r2) == 0),
                },
            },
            Bool::Gt(a, b) => match a.eval(request) {
                Err(er) => Err(er),
                Ok(l) => match b.eval(request) {
                    Err(er) => Err(er),
                    Ok(r2) => Ok(dec_cmp(&l, &r2) == 1),
                },
            },
            Bool::Lt(a, b) => match a.eval(request) {
                Err(er) => Err(er),
                Ok(l) => match b.eval(request) {
                    Err(er) => Err(er),
                    Ok(r2) => Ok(dec_cmp(&l, &r2) == -1),
                },
            },
            Bool::Gte(a, b) => match a.eval(request) {
                Err(er) => Err(er),
                Ok(l) => match b.eval(request) {
                    Err(er) => Err(er),
                    Ok(r2) => Ok(dec_cmp(&l, &r2) != -1),
                },
            },
            Bool::Lte(a, b) => match a.eval(request) {
                Err(er) => Err(er),
                Ok(l) => match b.eval(request) {
                    Err(er) => Err(er),
                    Ok(r2) => Ok(dec_cmp(&l, &r2) != 1),
                },
            },
            Bool::Not(x) => match x.eval(request) {
                Err(er) => Err(er),
                Ok(b) => Ok(!b),
            },
            Bool::And(xs) => eval_and(xs, request),
            Bool::Or(xs) => eval_or(xs, request),
        }
    }
}


/// Evaluates all children of a conjunction, left to right.
fn eval_and(xs: &Vec<Bool>, request: &Request) -> (r: Result<bool, EvalError>)
    ensures
        bres_view(r) == and_eval(bools_view(xs@), request@),
    decreases *xs,
{
    let ghost vs = bools_view(xs@);
    proof {
        lemma_bools_view_index(xs@);
        assert(vs.skip(0) =~= vs);
    }
    let mut all = true;
    let mut i: usize = 0;
    loop
        invariant
            vs == bools_view(xs@),
            vs.len() == xs@.len(),
            xs@.len() == xs.len(),
            forall|k: int| 0 <= k < xs@.len() ==> #[trigger] vs[k] == bool_view(xs@[k]),
            0 <= i <= xs.len(),
            match and_eval(vs.skip(i as int), request@) {
                Result::Ok(b) => and_eval(vs, request@) == Result::<bool, EvalErrV>::Ok(
                    all && b,
                ),
                Result::Err(e) => and_eval(vs, request@) == Result::<bool, EvalErrV>::Err(e),
            },
        decreases xs.len() - i,
    {
        if i == xs.len() {
            proof {
                assert(vs.skip(i as int) =~= Seq::<BoolV>::empty());
            }
            return Ok(all);
        }
        proof {
            assert(vs.skip(i as int)[0] == vs[i as int]);
            assert(vs.skip(i as int).drop_first() =~= vs.skip(i + 1));
        }
        match xs[i].eval(request) {
            Err(er) => {
                return Err(er);
            },
            Ok(b) => {
                all = all && b;
            },
        }
        i = i + 1;
    }
}

/// Evaluates all children of a disjunction, left to right.
fn eval_or(xs: &Vec<Bool>, request: &Request) -> (r: Result<bool, EvalError>)
    ensures
        bres_view(r) == or_eval(bools_view(xs@), request@),
    decreases *xs,
{
    let ghost vs = bools_view(xs@);
    proof {
        lemma_bools_view_index(xs@);
        assert(vs.skip(0) =~= vs);
    }
    let mut any = false;
    let mut i: usize = 0;
    loop
        invariant
            vs == bools_view(xs@),
            vs.len() == xs@.len(),
            xs@.len() == xs.len(),
            forall|k: int| 0 <= k < xs@.len() ==> #[trigger] vs[k] == bool_view(xs@[k]),
            0 <= i <= xs.len(),
            match or_eval(vs.skip(i as int), request@) {
                Result::Ok(b) => or_eval(vs, request@) == Result::<bool, EvalErrV>::Ok(
                    any || b,
                ),
                Result::Err(e) => or_eval(vs, request@) == Result::<bool, EvalErrV>::Err(e),
            },
        decreases xs.len() - i,
    {
        if i == xs.len() {
            proof {
                assert(vs.skip(i as int) =~= Seq::<BoolV>::empty());
            }
            return Ok(any);
        }
        proof {
            assert(vs.skip(i as int)[0] == vs[i as int]);
            assert(vs.skip(i as int).drop_first() =~= vs.skip(i + 1));
        }
        match xs[i].eval(request) {
            Err(er) => {
                return Err(er);
            },
            Ok(b) => {
                any = any || b;
            },
        }
        i = i + 1;
    }
}

impl Str {
    /// Evaluates a string expression against the request.
    pub fn eval(&self, request: &Request) -> (r: Result<String, EvalError>)
        ensures
            sres_view(r) == eval_str_v(str_view(*self), request@),
        decreases *self,
    {
        match self {
            Str::Constant(s) => Ok(s.clone()),
            Str::Attribute(k) => match request.get(k.as_str()) {
                Some(v) => Ok(v.clone()),
                None => Err(EvalError::MissingAttribute(k.clone())),
            },
            Str::Base64(v) => match v.eval(request) {
                Err(er) => Err(er),
                Ok(s) => match b64_decode(s.as_str()) {
                    None => Err(EvalError::ParseFailure),
                    Some(bytes) => {
                        proof {
                            assert(bytes.deep_view() =~= bytes@);
                        }
                        match utf8_string(bytes) {
                            None => Err(EvalError::ParseFailure),
                            Some(t) => Ok(t),
                        }
                    },
                },
            },
            Str::Extract { regex, value } => match value.eval(request) {
                Err(er) => Err(er),
                Ok(s) => match re_captures(regex.as_str(), s.as_str()) {
                    None => Err(EvalError::RegexError),
                    Some(None) => Err(EvalError::RegexMiss),
                    Some(Some(caps)) => {
                        proof {
                            if caps.deep_view().len() > 1 {
                                assert(caps@[1].deep_view() == caps.deep_view()[1]);
                            }
                        }
                        if caps.len() > 1 {
                            match &caps[1] {
                                Some(g) => Ok(g.clone()),
                                None => Err(EvalError::RegexMiss),
                            }
                        } else {
                            Err(EvalError::RegexMiss)
                        }
                    },
                },
            },
            Str::Cookie(name) => get_cookie(request, name.as_str()),
            Str::Browser => ua_field(request, 0),
            Str::BrowserVersion => ua_field(request, 1),
            Str::OperatingSystem => ua_field(request, 2),
            Str::JsonPointer { pointer, value } => match value.eval(request) {
                Err(er) => Err(er),
                Ok(j) => match json_string_at(j.as_str(), pointer.as_str()) {
                    Err(_) => Err(EvalError::ParseFailure),
                    Ok(None) => Err(EvalError::TypeMismatch),
                    Ok(Some(s)) => Ok(s),
                },
            },
            Str::First(l) => match l.eval(request) {
                Err(er) => Err(er),
                Ok(v) => {
                    if v.len() > 0 {
                        proof {
                            assert(v@[0].deep_view() == v.deep_view()[0]);
                        }
                        Ok(v[0].clone())
                    } else {
                        Err(EvalError::EmptyList)
                    }
                },
            },
            Str::Last(l) => match l.eval(request) {
                Err(er) => Err(er),
                Ok(v) => {
                    if v.len() > 0 {
                        proof {
                            assert(v@[v@.len() - 1].deep_view() == v.deep_view().last());
                        }
                        Ok(v[v.len() - 1].clone())
                    } else {
                        Err(EvalError::EmptyList)
                    }
                },
            },
        }
    }
}

impl StrList {
    /// Evaluates a string-list expression against the request.
    pub fn eval(&self, request: &Request) -> (r: Result<Vec<String>, EvalError>)
        ensures
            lres_view(r) == eval_strlist_v(strlist_view(*self), request@),
        decreases *self,
    {
        match self {
            StrList::Constant(vs) => Ok(vs.clone()),
            StrList::Split { separator, value } => match value.eval(request) {
                Err(er) => Err(er),
                Ok(s) => {
                    let sc = to_chars(s.as_str());
                    if sc.len() == 0 {
                        let out: Vec<String> = Vec::new();
                        proof {
                            assert(out.deep_view() =~= Seq::<Seq<char>>::empty());
                        }
                        Ok(out)
                    } else {
                        let sepc = to_chars(separator.as_str());
                        if sepc.len() == 0 {
                            let ghost target = split_empty_sep(s@);
                            let mut out: Vec<String> = Vec::new();
                            out.push(String::new());
                            let mut i: usize = 0;
                            proof {
                                assert(target.len() == s@.len() + 2);
                                assert(target[0] == Seq::<char>::empty());
                                assert(out.deep_view() =~~= target.take(1));
                            }
                            while i < sc.len()
                                invariant
                                    sc@ == s@,
                                    target == split_empty_sep(s@),
                                    target.len() == s@.len() + 2,
                                    0 <= i <= sc.len(),
                                    sc@.len() == sc.len(),
                                    out.deep_view() == target.take(i + 1),
                                decreases sc.len() - i,
                            {
                                let cs = char_string(sc[i]);
                                out.push(cs);
                                proof {
                                    assert(target[i + 1] == seq![s@[i as int]]);
                                    assert(target.take(i + 2) =~= target.take(i + 1).push(
                                        target[i + 1],
                                    ));
                                    assert(out.deep_view() =~~= target.take(i + 2));
                                }
                                i = i + 1;
                            }
                            out.push(String::new());
                            proof {
                                assert(target[target.len() - 1] == Seq::<char>::empty());
                                assert(target.take(target.len() as int) =~= target);
                                assert(out.deep_view() =~~= target);
                            }
                            Ok(out)
                        } else {
                            let pieces = split_chars(&sc, &sepc);
                            let out = crate::strutil::charvecs_to_strings(&pieces);
                            Ok(out)
                        }
                    }
                },
            },
            StrList::Extract { regex, value } => match value.eval(request) {
                Err(er) => Err(er),
                Ok(s) => match re_captures(regex.as_str(), s.as_str()) {
                    None => Err(EvalError::RegexError),
                    Some(None) => Err(EvalError::RegexMiss),
                    Some(Some(caps)) => {
                        let ghost gs = caps.deep_view();
                        let mut kept: Vec<String> = Vec::new();
                        let mut i: usize = 0;
                        proof {
                            assert(gs.take(0) =~= Seq::<Option<Seq<char>>>::empty());
                            assert(kept.deep_view() =~= caps_keep(gs.take(0)));
                        }
                        while i < caps.len()
                            invariant
                                gs == caps.deep_view(),
                                gs.len() == caps.len(),
                                0 <= i <= caps.len(),
                                kept.deep_view() == caps_keep(gs.take(i as int)),
                            decreases caps.len() - i,
                        {
                            proof {
                                assert(caps@[i as int].deep_view() == gs[i as int]);
                                assert(gs.take(i + 1).drop_last() =~= gs.take(i as int));
                                assert(gs.take(i + 1).last() == gs[i as int]);
                            }
                            match &caps[i] {
                                Some(g) => {
                                    kept.push(g.clone());
                                    proof {
                                        assert(kept.deep_view() =~~= caps_keep(gs.take(i + 1)));
                                    }
                                },
                                None => {
                                    proof {
                                        assert(caps_keep(gs.take(i + 1)) =~= caps_keep(gs.take(
                                            i as int,
                                        )));
                                    }
                                },
                            }
                            i = i + 1;
                        }
                        proof {
                            assert(gs.take(gs.len() as int) =~= gs);
                        }
                        if kept.len() == 0 {
                            Ok(kept)
                        } else {
                            let ghost kv = kept.deep_view();
                            let first = kept.remove(0);
                            proof {
                                assert(kept.deep_view() =~~= kv.drop_first());
                            }
                            Ok(kept)
                        }
                    },
                },
            },
            StrList::HttpQualityValue(v) => match v.eval(request) {
                Err(er) => Err(er),
                Ok(s) => Ok(parse_q_value(s.as_str())),
            },
        }
    }
}

impl Num {
    /// Evaluates a number expression against the request.
    pub fn eval(&self, request: &Request) -> (r: Result<Dec, EvalError>)
        ensures
            nres_view(r) == eval_num_v(num_view(*self), request@),
            r matches Ok(d) ==> dec_normalized(d@),
        decreases *self,
    {
        match self {
            Num::Constant(t) => {
                let tc = to_chars(t.as_str());
                match parse_dec_chars(&tc) {
                    Some(d) => Ok(d),
                    None => Err(EvalError::ParseFailure),
                }
            },
            Num::Attribute(k) => match request.get(k.as_str()) {
                None => Err(EvalError::MissingAttribute(k.clone())),
                Some(v) => {
                    let vc = to_chars(v.as_str());
                    match parse_dec_chars(&vc) {
                        Some(d) => Ok(d),
                        None => Err(EvalError::ParseFailure),
                    }
                },
            },
            Num::Rank(v) => match v.eval(request) {
                Err(er) => Err(er),
                Ok(s) => {
                    let sc = to_chars(s.as_str());
                    let h = rank_hash_chars(&sc);
                    let t = h % 1000;
                    let mut digits: Vec<u8> = Vec::new();
                    digits.push((t / 100) as u8);
                    digits.push(((t / 10) % 10) as u8);
                    digits.push((t % 10) as u8);
                    proof {
                        assert(digits@ =~= rank_digits(t as int));
                        assert(forall|i: int|
                            0 <= i < digits@.len() ==> #[trigger] digits@[i] < 10);
                    }
                    let d = make_dec(false, digits, 2);
                    Ok(d)
                },
            },
            Num::JsonPointer { pointer, value } => match value.eval(request) {
                Err(er) => Err(er),
                Ok(j) => match json_number_at(j.as_str(), pointer.as_str()) {
                    Err(_) => Err(EvalError::ParseFailure),
                    Ok(None) => Err(EvalError::TypeMismatch),
                    Ok(Some(txt)) => {
                        let tc = to_chars(txt.as_str());
                        match parse_dec_chars(&tc) {
                            Some(d) => Ok(d),
                            None => Err(EvalError::TypeMismatch),
                        }
                    },
                },
            },
        }
    }
}

} // verus!
