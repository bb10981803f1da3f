//! The configuration codec: JSON serialization of the expression sorts
//! and the targeting configurations.
//!
//! Every variant is a single-key object whose key is the variant's
//! snake-case name; unit variants are bare strings; tuple payloads are
//! arrays; record payloads are objects with the fields in declaration
//! order. The writer emits the compact form (no whitespace); the reader
//! accepts exactly that form and, on success, is guaranteed to return a
//! configuration that re-serializes to its input, byte for byte.

use crate::expression::{
    bool_view, bools_view, num_view, str_view, strlist_view, strlists_view, Bool, BoolV, Num,
    NumV, Str, StrList, StrListV, StrV,
};
use crate::implicit::{feature_view, features_view, Feature, FeatureV};
use crate::jstring::{esc_str, push_quoted};
use crate::strutil::push_all;
use crate::trusted::chars_to_string;
use vstd::prelude::*;

verus! {

broadcast use
    vstd::std_specs::vec::axiom_vec_index_decreases,
    vstd::std_specs::vec::axiom_vec_decreases_to_view,
    vstd::seq::axiom_seq_index_decreases,
    vstd::seq::axiom_seq_subrange_decreases,
;

/// The text `{"constant":`.
pub open spec fn k_obj_constant() -> Seq<char> {
    seq!['{', '"', 'c', 'o', 'n', 's', 't', 'a', 'n', 't', '"', ':']
}

/// The text `{"attribute":`.
pub open spec fn k_obj_attribute() -> Seq<char> {
    seq!['{', '"', 'a', 't', 't', 'r', 'i', 'b', 'u', 't', 'e', '"', ':']
}

/// The text `{"in":{"list":`.
pub open spec fn k_obj_in() -> Seq<char> {
    seq!['{', '"', 'i', 'n', '"', ':', '{', '"', 'l', 'i', 's', 't', '"', ':']
}

/// The text `{"any_in":{"list":`.
pub open spec fn k_obj_any_in() -> Seq<char> {
    seq!['{', '"', 'a', 'n', 'y', '_', 'i', 'n', '"', ':', '{', '"', 'l', 'i', 's', 't', '"', ':']
}

/// The text `{"all_in":{"list":`.
pub open spec fn k_obj_all_in() -> Seq<char> {
    seq!['{', '"', 'a', 'l', 'l', '_', 'i', 'n', '"', ':', '{', '"', 'l', 'i', 's', 't', '"', ':']
}

/// The text `{"json_pointer":{"pointer":`.
pub open spec fn k_obj_json_pointer() -> Seq<char> {
    seq!['{', '"', 'j', 's', 'o', 'n', '_', 'p', 'o', 'i', 'n', 't', 'e', 'r', '"', ':', '{', '"', 'p', 'o', 'i', 'n', 't', 'e', 'r', '"', ':']
}

/// The text `{"matches":[`.
pub open spec fn k_obj_matches() -> Seq<char> {
    seq!['{', '"', 'm', 'a', 't', 'c', 'h', 'e', 's', '"', ':', '[']
}

/// The text `{"str_eq":[`.
pub open spec fn k_obj_str_eq() -> Seq<char> {
    seq!['{', '"', 's', 't', 'r', '_', 'e', 'q', '"', ':', '[']
}

/// The text `{"num_eq":[`.
pub open spec fn k_obj_num_eq() -> Seq<char> {
    seq!['{', '"', 'n', 'u', 'm', '_', 'e', 'q', '"', ':', '[']
}

/// The text `{"gt":[`.
pub open spec fn k_obj_gt() -> Seq<char> {
    seq!['{', '"', 'g', 't', '"', ':', '[']
}

/// The text `{"lt":[`.
pub open spec fn k_obj_lt() -> Seq<char> {
    seq!['{', '"', 'l', 't', '"', ':', '[']
}

/// The text `{"gte":[`.
pub open spec fn k_obj_gte() -> Seq<char> {
    seq!['{', '"', 'g', 't', 'e', '"', ':', '[']
}

/// The text `{"lte":[`.
pub open spec fn k_obj_lte() -> Seq<char> {
    seq!['{', '"', 'l', 't', 'e', '"', ':', '[']
}

/// The text `{"not":`.
pub open spec fn k_obj_not() -> Seq<char> {
    seq!['{', '"', 'n', 'o', 't', '"', ':']
}

/// The text `{"and":[`.
pub open spec fn k_obj_and() -> Seq<char> {
    seq!['{', '"', 'a', 'n', 'd', '"', ':', '[']
}

/// The text `{"or":[`.
pub open spec fn k_obj_or() -> Seq<char> {
    seq!['{', '"', 'o', 'r', '"', ':', '[']
}

/// The text `{"base64":`.
pub open spec fn k_obj_base64() -> Seq<char> {
    seq!['{', '"', 'b', 'a', 's', 'e', '6', '4', '"', ':']
}

/// The text `{"extract":{"regex":`.
pub open spec fn k_obj_extract() -> Seq<char> {
    seq!['{', '"', 'e', 'x', 't', 'r', 'a', 'c', 't', '"', ':', '{', '"', 'r', 'e', 'g', 'e', 'x', '"', ':']
}

/// The text `{"cookie":`.
pub open spec fn k_obj_cookie() -> Seq<char> {
    seq!['{', '"', 'c', 'o', 'o', 'k', 'i', 'e', '"', ':']
}

/// The text `{"first":`.
pub open spec fn k_obj_first() -> Seq<char> {
    seq!['{', '"', 'f', 'i', 'r', 's', 't', '"', ':']
}

/// The text `{"last":`.
pub open spec fn k_obj_last() -> Seq<char> {
    seq!['{', '"', 'l', 'a', 's', 't', '"', ':']
}

/// The text `{"split":{"separator":`.
pub open spec fn k_obj_split() -> Seq<char> {
    seq!['{', '"', 's', 'p', 'l', 'i', 't', '"', ':', '{', '"', 's', 'e', 'p', 'a', 'r', 'a', 't', 'o', 'r', '"', ':']
}

/// The text `{"http_quality_value":`.
pub open spec fn k_obj_http_quality_value() -> Seq<char> {
    seq!['{', '"', 'h', 't', 't', 'p', '_', 'q', 'u', 'a', 'l', 'i', 't', 'y', '_', 'v', 'a', 'l', 'u', 'e', '"', ':']
}

/// The text `{"rank":`.
pub open spec fn k_obj_rank() -> Seq<char> {
    seq!['{', '"', 'r', 'a', 'n', 'k', '"', ':']
}

/// The text `"browser"`.
pub open spec fn k_lit_browser() -> Seq<char> {
    seq!['"', 'b', 'r', 'o', 'w', 's', 'e', 'r', '"']
}

/// The text `"browser_version"`.
pub open spec fn k_lit_browser_version() -> Seq<char> {
    seq!['"', 'b', 'r', 'o', 'w', 's', 'e', 'r', '_', 'v', 'e', 'r', 's', 'i', 'o', 'n', '"']
}

/// The text `"operating_system"`.
pub open spec fn k_lit_operating_system() -> Seq<char> {
    seq!['"', 'o', 'p', 'e', 'r', 'a', 't', 'i', 'n', 'g', '_', 's', 'y', 's', 't', 'e', 'm', '"']
}

/// The text `,"value":`.
pub open spec fn k_mid_value() -> Seq<char> {
    seq![',', '"', 'v', 'a', 'l', 'u', 'e', '"', ':']
}

/// The text `,"values":`.
pub open spec fn k_mid_values() -> Seq<char> {
    seq![',', '"', 'v', 'a', 'l', 'u', 'e', 's', '"', ':']
}

/// The text `true}`.
pub open spec fn k_lit_true() -> Seq<char> {
    seq!['t', 'r', 'u', 'e', '}']
}

/// The text `false}`.
pub open spec fn k_lit_false() -> Seq<char> {
    seq!['f', 'a', 'l', 's', 'e', '}']
}

/// The text `{"name":`.
pub open spec fn k_obj_name() -> Seq<char> {
    seq!['{', '"', 'n', 'a', 'm', 'e', '"', ':']
}

/// The text `,"rule":`.
pub open spec fn k_mid_rule() -> Seq<char> {
    seq![',', '"', 'r', 'u', 'l', 'e', '"', ':']
}

/// A quoted JSON string.
pub open spec fn quoted(x: Seq<char>) -> Seq<char> {
    seq!['"'] + esc_str(x) + seq!['"']
}

/// The serialized form of a boolean expression.
#[verifier::opaque]
pub open spec fn ser_bool(e: BoolV) -> Seq<char>
    decreases e,
{
    match e {
        BoolV::Constant(b) => if b {
            seq!['{', '"', 'c', 'o', 'n', 's', 't', 'a', 'n', 't', '"', ':'] + k_lit_true()
        } else {
            seq!['{', '"', 'c', 'o', 'n', 's', 't', 'a', 'n', 't', '"', ':'] + k_lit_false()
        },
        BoolV::Attribute(k) => k_obj_attribute() + quoted(k) + seq!['}'],
        BoolV::In { list, value } => k_obj_in() + ser_strlist(*list) + k_mid_value() + ser_str(
            *value,
        ) + seq!['}', '}'],
        BoolV::AnyIn { list, values } => k_obj_any_in() + ser_strlist(*list) + k_mid_values()
            + ser_strlist(*values) + seq!['}', '}'],
        BoolV::AllIn { list, values } => k_obj_all_in() + ser_strlist(*list) + k_mid_values()
            + ser_strlist(*values) + seq!['}', '}'],
        BoolV::JsonPointer { pointer, value } => k_obj_json_pointer() + quoted(pointer)
            + k_mid_value() + ser_str(*value) + seq!['}', '}'],
        BoolV::Matches(re, v) => k_obj_matches() + quoted(re) + seq![','] + ser_str(*v) + seq![
            ']',
            '}',
        ],
        BoolV::StrEq(a, b) => k_obj_str_eq() + ser_str(*a) + seq![','] + ser_str(*b) + seq![
            ']',
            '}',
        ],
        BoolV::NumEq(a, b) => k_obj_num_eq() + ser_num(*a) + seq![','] + ser_num(*b) + seq![
            ']',
            '}',
        ],
        BoolV::Gt(a, b) => k_obj_gt() + ser_num(*a) + seq![','] + ser_num(*b) + seq![']', '}'],
        BoolV::Lt(a, b) => k_obj_lt() + ser_num(*a) + seq![','] + ser_num(*b) + seq![']', '}'],
        BoolV::Gte(a, b) => k_obj_gte() + ser_num(*a) + seq![','] + ser_num(*b) + seq![']', '}'],
        BoolV::Lte(a, b) => k_obj_lte() + ser_num(*a) + seq![','] + ser_num(*b) + seq![']', '}'],
        BoolV::Not(x) => k_obj_not() + ser_bool(*x) + seq!['}'],
        BoolV::And(xs) => k_obj_and() + ser_bool_items(xs) + seq![']', '}'],
        BoolV::Or(xs) => k_obj_or() + ser_bool_items(xs) + seq![']', '}'],
    }
}

/// The comma-separated serializations of boolean expressions.
#[verifier::opaque]
pub open spec fn ser_bool_items(xs: Seq<BoolV>) -> Seq<char>
    decreases xs,
{
    if xs.len() == 0 {
        Seq::empty()
    } else if xs.len() == 1 {
        ser_bool(xs[0])
    } else {
        ser_bool_items(xs.drop_last()) + seq![','] + ser_bool(xs.last())
    }
}

/// The serialized form of a string expression.
#[verifier::opaque]
pub open spec fn ser_str(e: StrV) -> Seq<char>
    decreases e,
{
    match e {
        StrV::Constant(s) => k_obj_constant() + quoted(s) + seq!['}'],
        StrV::Attribute(k) => k_obj_attribute() + quoted(k) + seq!['}'],
        StrV::Base64(v) => k_obj_base64() + ser_str(*v) + seq!['}'],
        StrV::Extract { regex, value } => k_obj_extract() + quoted(regex) + k_mid_value()
            + ser_str(*value) + seq!['}', '}'],
        StrV::Cookie(n) => k_obj_cookie() + quoted(n) + seq!['}'],
        StrV::Browser => k_lit_browser(),
        StrV::BrowserVersion => k_lit_browser_version(),
        StrV::OperatingSystem => k_lit_operating_system(),
        StrV::JsonPointer { pointer, value } => k_obj_json_pointer() + quoted(pointer)
            + k_mid_value() + ser_str(*value) + seq!['}', '}'],
        StrV::First(l) => k_obj_first() + ser_strlist(*l) + seq!['}'],
        StrV::Last(l) => k_obj_last() + ser_strlist(*l) + seq!['}'],
    }
}

/// The serialized form of a string-list expression.
#[verifier::opaque]
pub open spec fn ser_strlist(e: StrListV) -> Seq<char>
    decreases e,
{
    match e {
        StrListV::Constant(vs) => k_obj_constant() + seq!['['] + ser_string_items(vs) + seq![
            ']',
            '}',
        ],
        StrListV::Split { separator, value } => k_obj_split() + quoted(separator) + k_mid_value()
            + ser_str(*value) + seq!['}', '}'],
        StrListV::Extract { regex, value } => k_obj_extract() + quoted(regex) + k_mid_value()
            + ser_str(*value) + seq!['}', '}'],
        StrListV::HttpQualityValue(v) => k_obj_http_quality_value() + ser_str(*v) + seq!['}'],
    }
}

/// The comma-separated quoted strings of a string array.
#[verifier::opaque]
pub open spec fn ser_string_items(vs: Seq<Seq<char>>) -> Seq<char>
    decreases vs.len(),
{
    if vs.len() == 0 {
        Seq::empty()
    } else if vs.len() == 1 {
        quoted(vs[0])
    } else {
        ser_string_items(vs.drop_last()) + seq![','] + quoted(vs.last())
    }
}

/// The serialized form of a number expression.
#[verifier::opaque]
pub open spec fn ser_num(e: NumV) -> Seq<char>
    decreases e,
{
    match e {
        NumV::Constant(t) => k_obj_constant() + t + seq!['}'],
        NumV::Attribute(k) => k_obj_attribute() + quoted(k) + seq!['}'],
        NumV::Rank(v) => k_obj_rank() + ser_str(*v) + seq!['}'],
        NumV::JsonPointer { pointer, value } => k_obj_json_pointer() + quoted(pointer)
            + k_mid_value() + ser_str(*value) + seq!['}', '}'],
    }
}

/// The serialized form of a feature and its rule.
#[verifier::opaque]
pub open spec fn ser_feature(f: FeatureV) -> Seq<char> {
    k_obj_name() + quoted(f.name) + k_mid_rule() + ser_bool(f.rule) + seq!['}']
}

/// The comma-separated serializations of features.
#[verifier::opaque]
pub open spec fn ser_feature_items(fs: Seq<FeatureV>) -> Seq<char>
    decreases fs.len(),
{
    if fs.len() == 0 {
        Seq::empty()
    } else if fs.len() == 1 {
        ser_feature(fs[0])
    } else {
        ser_feature_items(fs.drop_last()) + seq![','] + ser_feature(fs.last())
    }
}

/// The serialized explicit configuration: an array of string-list
/// expressions.
pub open spec fn ser_explicit(cfg: Seq<StrListV>) -> Seq<char> {
    seq!['['] + ser_strlist_items(cfg) + seq![']']
}

/// The comma-separated serializations of string-list expressions.
#[verifier::opaque]
pub open spec fn ser_strlist_items(xs: Seq<StrListV>) -> Seq<char>
    decreases xs.len(),
{
    if xs.len() == 0 {
        Seq::empty()
    } else if xs.len() == 1 {
        ser_strlist(xs[0])
    } else {
        ser_strlist_items(xs.drop_last()) + seq![','] + ser_strlist(xs.last())
    }
}

/// The serialized implicit configuration: an array of features.
pub open spec fn ser_implicit(cfg: Seq<FeatureV>) -> Seq<char> {
    seq!['['] + ser_feature_items(cfg) + seq![']']
}

/// Appends the text of `k_obj_constant()`.
fn push_k_obj_constant(out: &mut Vec<char>)
    ensures
        final(out)@ == old(out)@ + k_obj_constant(),
{
    out.push('{');
    out.push('"');
    out.push('c');
    out.push('o');
    out.push('n');
    out.push('s');
    out.push('t');
    out.push('a');
    out.push('n');
    out.push('t');
    out.push('"');
    out.push(':');
    proof {
        assert(out@ =~= old(out)@ + k_obj_constant());
    }
}

/// Appends the text of `k_obj_attribute()`.
fn push_k_obj_attribute(out: &mut Vec<char>)
    ensures
        final(out)@ == old(out)@ + k_obj_attribute(),
{
    out.push('{');
    out.push('"');
    out.push('a');
    out.push('t');
    out.push('t');
    out.push('r');
    out.push('i');
    out.push('b');
    out.push('u');
    out.push('t');
    out.push('e');
    out.push('"');
    out.push(':');
    proof {
        assert(out@ =~= old(out)@ + k_obj_attribute());
    }
}

/// Appends the text of `k_obj_in()`.
fn push_k_obj_in(out: &mut Vec<char>)
    ensures
        final(out)@ == old(out)@ + k_obj_in(),
{
    out.push('{');
    out.push('"');
    out.push('i');
    out.push('n');
    out.push('"');
    out.push(':');
    out.push('{');
    out.push('"');
    out.push('l');
    out.push('i');
    out.push('s');
    out.push('t');
    out.push('"');
    out.push(':');
    proof {
        assert(out@ =~= old(out)@ + k_obj_in());
    }
}

/// Appends the text of `k_obj_any_in()`.
fn push_k_obj_any_in(out: &mut Vec<char>)
    ensures
        final(out)@ == old(out)@ + k_obj_any_in(),
{
    out.push('{');
    out.push('"');
    out.push('a');
    out.push('n');
    out.push('y');
    out.push('_');
    out.push('i');
    out.push('n');
    out.push('"');
    out.push(':');
    out.push('{');
    out.push('"');
    out.push('l');
    out.push('i');
    out.push('s');
    out.push('t');
    out.push('"');
    out.push(':');
    proof {
        assert(out@ =~= old(out)@ + k_obj_any_in());
    }
}

/// Appends the text of `k_obj_all_in()`.
fn push_k_obj_all_in(out: &mut Vec<char>)
    ensures
        final(out)@ == old(out)@ + k_obj_all_in(),
{
    out.push('{');
    out.push('"');
    out.push('a');
    out.push('l');
    out.push('l');
    out.push('_');
    out.push('i');
    out.push('n');
    out.push('"');
    out.push(':');
    out.push('{');
    out.push('"');
    out.push('l');
    out.push('i');
    out.push('s');
    out.push('t');
    out.push('"');
    out.push(':');
    proof {
        assert(out@ =~= old(out)@ + k_obj_all_in());
    }
}

/// Appends the text of `k_obj_json_pointer()`.
fn push_k_obj_json_pointer(out: &mut Vec<char>)
    ensures
        final(out)@ == old(out)@ + k_obj_json_pointer(),
{
    out.push('{');
    out.push('"');
    out.push('j');
    out.push('s');
    out.push('o');
    out.push('n');
    out.push('_');
    out.push('p');
    out.push('o');
    out.push('i');
    out.push('n');
    out.push('t');
    out.push('e');
    out.push('r');
    out.push('"');
    out.push(':');
    out.push('{');
    out.push('"');
    out.push('p');
    out.push('o');
    out.push('i');
    out.push('n');
    out.push('t');
    out.push('e');
    out.push('r');
    out.push('"');
    out.push(':');
    proof {
        assert(out@ =~= old(out)@ + k_obj_json_pointer());
    }
}

/// Appends the text of `k_obj_matches()`.
fn push_k_obj_matches(out: &mut Vec<char>)
    ensures
        final(out)@ == old(out)@ + k_obj_matches(),
{
    out.push('{');
    out.push('"');
    out.push('m');
    out.push('a');
    out.push('t');
    out.push('c');
    out.push('h');
    out.push('e');
    out.push('s');
    out.push('"');
    out.push(':');
    out.push('[');
    proof {
        assert(out@ =~= old(out)@ + k_obj_matches());
    }
}

/// Appends the text of `k_obj_str_eq()`.
fn push_k_obj_str_eq(out: &mut Vec<char>)
    ensures
        final(out)@ == old(out)@ + k_obj_str_eq(),
{
    out.push('{');
    out.push('"');
    out.push('s');
    out.push('t');
    out.push('r');
    out.push('_');
    out.push('e');
    out.push('q');
    out.push('"');
    out.push(':');
    out.push('[');
    proof {
        assert(out@ =~= old(out)@ + k_obj_str_eq());
    }
}

/// Appends the text of `k_obj_num_eq()`.
fn push_k_obj_num_eq(out: &mut Vec<char>)
    ensures
        final(out)@ == old(out)@ + k_obj_num_eq(),
{
    out.push('{');
    out.push('"');
    out.push('n');
    out.push('u');
    out.push('m');
    out.push('_');
    out.push('e');
    out.push('q');
    out.push('"');
    out.push(':');
    out.push('[');
    proof {
        assert(out@ =~= old(out)@ + k_obj_num_eq());
    }
}

/// Appends the text of `k_obj_gt()`.
fn push_k_obj_gt(out: &mut Vec<char>)
    ensures
        final(out)@ == old(out)@ + k_obj_gt(),
{
    out.push('{');
    out.push('"');
    out.push('g');
    out.push('t');
    out.push('"');
    out.push(':');
    out.push('[');
    proof {
        assert(out@ =~= old(out)@ + k_obj_gt());
    }
}

/// Appends the text of `k_obj_lt()`.
fn push_k_obj_lt(out: &mut Vec<char>)
    ensures
        final(out)@ == old(out)@ + k_obj_lt(),
{
    out.push('{');
    out.push('"');
    out.push('l');
    out.push('t');
    out.push('"');
    out.push(':');
    out.push('[');
    proof {
        assert(out@ =~= old(out)@ + k_obj_lt());
    }
}

/// Appends the text of `k_obj_gte()`.
fn push_k_obj_gte(out: &mut Vec<char>)
    ensures
        final(out)@ == old(out)@ + k_obj_gte(),
{
    out.push('{');
    out.push('"');
    out.push('g');
    out.push('t');
    out.push('e');
    out.push('"');
    out.push(':');
    out.push('[');
    proof {
        assert(out@ =~= old(out)@ + k_obj_gte());
    }
}

/// Appends the text of `k_obj_lte()`.
fn push_k_obj_lte(out: &mut Vec<char>)
    ensures
        final(out)@ == old(out)@ + k_obj_lte(),
{
    out.push('{');
    out.push('"');
    out.push('l');
    out.push('t');
    out.push('e');
    out.push('"');
    out.push(':');
    out.push('[');
    proof {
        assert(out@ =~= old(out)@ + k_obj_lte());
    }
}

/// Appends the text of `k_obj_not()`.
fn push_k_obj_not(out: &mut Vec<char>)
    ensures
        final(out)@ == old(out)@ + k_obj_not(),
{
    out.push('{');
    out.push('"');
    out.push('n');
    out.push('o');
    out.push('t');
    out.push('"');
    out.push(':');
    proof {
        assert(out@ =~= old(out)@ + k_obj_not());
    }
}

/// Appends the text of `k_obj_and()`.
fn push_k_obj_and(out: &mut Vec<char>)
    ensures
        final(out)@ == old(out)@ + k_obj_and(),
{
    out.push('{');
    out.push('"');
    out.push('a');
    out.push('n');
    out.push('d');
    out.push('"');
    out.push(':');
    out.push('[');
    proof {
        assert(out@ =~= old(out)@ + k_obj_and());
    }
}

/// Appends the text of `k_obj_or()`.
fn push_k_obj_or(out: &mut Vec<char>)
    ensures
        final(out)@ == old(out)@ + k_obj_or(),
{
    out.push('{');
    out.push('"');
    out.push('o');
    out.push('r');
    out.push('"');
    out.push(':');
    out.push('[');
    proof {
        assert(out@ =~= old(out)@ + k_obj_or());
    }
}

/// Appends the text of `k_obj_base64()`.
fn push_k_obj_base64(out: &mut Vec<char>)
    ensures
        final(out)@ == old(out)@ + k_obj_base64(),
{
    out.push('{');
    out.push('"');
    out.push('b');
    out.push('a');
    out.push('s');
    out.push('e');
    out.push('6');
    out.push('4');
    out.push('"');
    out.push(':');
    proof {
        assert(out@ =~= old(out)@ + k_obj_base64());
    }
}

/// Appends the text of `k_obj_extract()`.
fn push_k_obj_extract(out: &mut Vec<char>)
    ensures
        final(out)@ == old(out)@ + k_obj_extract(),
{
    out.push('{');
    out.push('"');
    out.push('e');
    out.push('x');
    out.push('t');
    out.push('r');
    out.push('a');
    out.push('c');
    out.push('t');
    out.push('"');
    out.push(':');
    out.push('{');
    out.push('"');
    out.push('r');
    out.push('e');
    out.push('g');
    out.push('e');
    out.push('x');
    out.push('"');
    out.push(':');
    proof {
        assert(out@ =~= old(out)@ + k_obj_extract());
    }
}

/// Appends the text of `k_obj_cookie()`.
fn push_k_obj_cookie(out: &mut Vec<char>)
    ensures
        final(out)@ == old(out)@ + k_obj_cookie(),
{
    out.push('{');
    out.push('"');
    out.push('c');
    out.push('o');
    out.push('o');
    out.push('k');
    out.push('i');
    out.push('e');
    out.push('"');
    out.push(':');
    proof {
        assert(out@ =~= old(out)@ + k_obj_cookie());
    }
}

/// Appends the text of `k_obj_first()`.
fn push_k_obj_first(out: &mut Vec<char>)
    ensures
        final(out)@ == old(out)@ + k_obj_first(),
{
    out.push('{');
    out.push('"');
    out.push('f');
    out.push('i');
    out.push('r');
    out.push('s');
    out.push('t');
    out.push('"');
    out.push(':');
    proof {
        assert(out@ =~= old(out)@ + k_obj_first());
    }
}

/// Appends the text of `k_obj_last()`.
fn push_k_obj_last(out: &mut Vec<char>)
    ensures
        final(out)@ == old(out)@ + k_obj_last(),
{
    out.push('{');
    out.push('"');
    out.push('l');
    out.push('a');
    out.push('s');
    out.push('t');
    out.push('"');
    out.push(':');
    proof {
        assert(out@ =~= old(out)@ + k_obj_last());
    }
}

/// Appends the text of `k_obj_split()`.
fn push_k_obj_split(out: &mut Vec<char>)
    ensures
        final(out)@ == old(out)@ + k_obj_split(),
{
    out.push('{');
    out.push('"');
    out.push('s');
    out.push('p');
    out.push('l');
    out.push('i');
    out.push('t');
    out.push('"');
    out.push(':');
    out.push('{');
    out.push('"');
    out.push('s');
    out.push('e');
    out.push('p');
    out.push('a');
    out.push('r');
    out.push('a');
    out.push('t');
    out.push('o');
    out.push('r');
    out.push('"');
    out.push(':');
    proof {
        assert(out@ =~= old(out)@ + k_obj_split());
    }
}

/// Appends the text of `k_obj_http_quality_value()`.
fn push_k_obj_http_quality_value(out: &mut Vec<char>)
    ensures
        final(out)@ == old(out)@ + k_obj_http_quality_value(),
{
    out.push('{');
    out.push('"');
    out.push('h');
    out.push('t');
    out.push('t');
    out.push('p');
    out.push('_');
    out.push('q');
    out.push('u');
    out.push('a');
    out.push('l');
    out.push('i');
    out.push('t');
    out.push('y');
    out.push('_');
    out.push('v');
    out.push('a');
    out.push('l');
    out.push('u');
    out.push('e');
    out.push('"');
    out.push(':');
    proof {
        assert(out@ =~= old(out)@ + k_obj_http_quality_value());
    }
}

/// Appends the text of `k_obj_rank()`.
fn push_k_obj_rank(out: &mut Vec<char>)
    ensures
        final(out)@ == old(out)@ + k_obj_rank(),
{
    out.push('{');
    out.push('"');
    out.push('r');
    out.push('a');
    out.push('n');
    out.push('k');
    out.push('"');
    out.push(':');
    proof {
        assert(out@ =~= old(out)@ + k_obj_rank());
    }
}

/// Appends the text of `k_lit_browser()`.
fn push_k_lit_browser(out: &mut Vec<char>)
    ensures
        final(out)@ == old(out)@ + k_lit_browser(),
{
    out.push('"');
    out.push('b');
    out.push('r');
    out.push('o');
    out.push('w');
    out.push('s');
    out.push('e');
    out.push('r');
    out.push('"');
    proof {
        assert(out@ =~= old(out)@ + k_lit_browser());
    }
}

/// Appends the text of `k_lit_browser_version()`.
fn push_k_lit_browser_version(out: &mut Vec<char>)
    ensures
        final(out)@ == old(out)@ + k_lit_browser_version(),
{
    out.push('"');
    out.push('b');
    out.push('r');
    out.push('o');
    out.push('w');
    out.push('s');
    out.push('e');
    out.push('r');
    out.push('_');
    out.push('v');
    out.push('e');
    out.push('r');
    out.push('s');
    out.push('i');
    out.push('o');
    out.push('n');
    out.push('"');
    proof {
        assert(out@ =~= old(out)@ + k_lit_browser_version());
    }
}

/// Appends the text of `k_lit_operating_system()`.
fn push_k_lit_operating_system(out: &mut Vec<char>)
    ensures
        final(out)@ == old(out)@ + k_lit_operating_system(),
{
    out.push('"');
    out.push('o');
    out.push('p');
    out.push('e');
    out.push('r');
    out.push('a');
    out.push('t');
    out.push('i');
    out.push('n');
    out.push('g');
    out.push('_');
    out.push('s');
    out.push('y');
    out.push('s');
    out.push('t');
    out.push('e');
    out.push('m');
    out.push('"');
    proof {
        assert(out@ =~= old(out)@ + k_lit_operating_system());
    }
}

/// Appends the text of `k_mid_value()`.
fn push_k_mid_value(out: &mut Vec<char>)
    ensures
        final(out)@ == old(out)@ + k_mid_value(),
{
    out.push(',');
    out.push('"');
    out.push('v');
    out.push('a');
    out.push('l');
    out.push('u');
    out.push('e');
    out.push('"');
    out.push(':');
    proof {
        assert(out@ =~= old(out)@ + k_mid_value());
    }
}

/// Appends the text of `k_mid_values()`.
fn push_k_mid_values(out: &mut Vec<char>)
    ensures
        final(out)@ == old(out)@ + k_mid_values(),
{
    out.push(',');
    out.push('"');
    out.push('v');
    out.push('a');
    out.push('l');
    out.push('u');
    out.push('e');
    out.push('s');
    out.push('"');
    out.push(':');
    proof {
        assert(out@ =~= old(out)@ + k_mid_values());
    }
}

/// Appends the text of `k_lit_true()`.
fn push_k_lit_true(out: &mut Vec<char>)
    ensures
        final(out)@ == old(out)@ + k_lit_true(),
{
    out.push('t');
    out.push('r');
    out.push('u');
    out.push('e');
    out.push('}');
    proof {
        assert(out@ =~= old(out)@ + k_lit_true());
    }
}

/// Appends the text of `k_lit_false()`.
fn push_k_lit_false(out: &mut Vec<char>)
    ensures
        final(out)@ == old(out)@ + k_lit_false(),
{
    out.push('f');
    out.push('a');
    out.push('l');
    out.push('s');
    out.push('e');
    out.push('}');
    proof {
        assert(out@ =~= old(out)@ + k_lit_false());
    }
}

/// Appends the text of `k_obj_name()`.
fn push_k_obj_name(out: &mut Vec<char>)
    ensures
        final(out)@ == old(out)@ + k_obj_name(),
{
    out.push('{');
    out.push('"');
    out.push('n');
    out.push('a');
    out.push('m');
    out.push('e');
    out.push('"');
    out.push(':');
    proof {
        assert(out@ =~= old(out)@ + k_obj_name());
    }
}

/// Appends the text of `k_mid_rule()`.
fn push_k_mid_rule(out: &mut Vec<char>)
    ensures
        final(out)@ == old(out)@ + k_mid_rule(),
{
    out.push(',');
    out.push('"');
    out.push('r');
    out.push('u');
    out.push('l');
    out.push('e');
    out.push('"');
    out.push(':');
    proof {
        assert(out@ =~= old(out)@ + k_mid_rule());
    }
}

/// Appends a quoted string taken from a `String`.
fn push_string(out: &mut Vec<char>, s: &String)
    ensures
        final(out)@ == old(out)@ + quoted(s@),
{
    let sc = crate::strutil::to_chars(s.as_str());
    push_quoted(out, &sc);
}

/// Appends the serialization of a boolean expression.
#[verifier::rlimit(100)]
fn write_bool(out: &mut Vec<char>, e: &Bool)
    ensures
        final(out)@ == old(out)@ + ser_bool(bool_view(*e)),
    decreases *e,
{
    let ghost o0 = out@;
    match e {
        Bool::Constant(b) => {
            push_k_obj_constant(out);
            if *b {
                push_k_lit_true(out);
            } else {
                push_k_lit_false(out);
            }
            proof {
                reveal(ser_bool);
                reveal(ser_bool_items);
                assert(out@ =~= o0 + ser_bool(bool_view(*e)));
            }
        },
        Bool::Attribute(k) => {
            push_k_obj_attribute(out);
            push_string(out, k);
            out.push('}');
            proof {
                reveal(ser_bool);
                reveal(ser_bool_items);
                assert(out@ =~= o0 + ser_bool(bool_view(*e)));
            }
        },
        Bool::In { list, value } => {
            push_k_obj_in(out);
            write_strlist(out, list);
            push_k_mid_value(out);
            write_str(out, value);
            out.push('}');
            out.push('}');
            proof {
                reveal(ser_bool);
                reveal(ser_bool_items);
                assert(out@ =~= o0 + ser_bool(bool_view(*e)));
            }
        },
        Bool::AnyIn { list, values } => {
            push_k_obj_any_in(out);
            write_strlist(out, list);
            push_k_mid_values(out);
            write_strlist(out, values);
            out.push('}');
            out.push('}');
            proof {
                reveal(ser_bool);
                reveal(ser_bool_items);
                assert(out@ =~= o0 + ser_bool(bool_view(*e)));
            }
        },
        Bool::AllIn { list, values } => {
            push_k_obj_all_in(out);
            write_strlist(out, list);
            push_k_mid_values(out);
            write_strlist(out, values);
            out.push('}');
            out.push('}');
            proof {
                reveal(ser_bool);
                reveal(ser_bool_items);
                assert(out@ =~= o0 + ser_bool(bool_view(*e)));
            }
        },
        Bool::JsonPointer { pointer, value } => {
            push_k_obj_json_pointer(out);
            push_string(out, pointer);
            push_k_mid_value(out);
            write_str(out, value);
            out.push('}');
            out.push('}');
            proof {
                reveal(ser_bool);
                reveal(ser_bool_items);
                assert(out@ =~= o0 + ser_bool(bool_view(*e)));
            }
        },
        Bool::Matches(re, v) => {
            push_k_obj_matches(out);
            push_string(out, re);
            out.push(',');
            write_str(out, v);
            out.push(']');
            out.push('}');
            proof {
                reveal(ser_bool);
                reveal(ser_bool_items);
                assert(out@ =~= o0 + ser_bool(bool_view(*e)));
            }
        },
        Bool::StrEq(a, b) => {
            push_k_obj_str_eq(out);
            write_str(out, a);
            out.push(',');
            write_str(out, b);
            out.push(']');
            out.push('}');
            proof {
                reveal(ser_bool);
                reveal(ser_bool_items);
                assert(out@ =~= o0 + ser_bool(bool_view(*e)));
            }
        },
        Bool::NumEq(a, b) => {
            push_k_obj_num_eq(out);
            write_num(out, a);
            out.push(',');
            write_num(out, b);
            out.push(']');
            out.push('}');
            proof {
                reveal(ser_bool);
                reveal(ser_bool_items);
                assert(out@ =~= o0 + ser_bool(bool_view(*e)));
            }
        },
        Bool::Gt(a, b) => {
            push_k_obj_gt(out);
            write_num(out, a);
            out.push(',');
            write_num(out, b);
            out.push(']');
            out.push('}');
            proof {
                reveal(ser_bool);
                reveal(ser_bool_items);
                assert(out@ =~= o0 + ser_bool(bool_view(*e)));
            }
        },
        Bool::Lt(a, b) => {
            push_k_obj_lt(out);
            write_num(out, a);
            out.push(',');
            write_num(out, b);
            out.push(']');
            out.push('}');
            proof {
                reveal(ser_bool);
                reveal(ser_bool_items);
                assert(out@ =~= o0 + ser_bool(bool_view(*e)));
            }
        },
        Bool::Gte(a, b) => {
            push_k_obj_gte(out);
            write_num(out, a);
            out.push(',');
            write_num(out, b);
            out.push(']');
            out.push('}');
            proof {
                reveal(ser_bool);
                reveal(ser_bool_items);
                assert(out@ =~= o0 + ser_bool(bool_view(*e)));
            }
        },
        Bool::Lte(a, b) => {
            push_k_obj_lte(out);
            write_num(out, a);
            out.push(',');
            write_num(out, b);
            out.push(']');
            out.push('}');
            proof {
                reveal(ser_bool);
                reveal(ser_bool_items);
                assert(out@ =~= o0 + ser_bool(bool_view(*e)));
            }
        },
        Bool::Not(x) => {
            push_k_obj_not(out);
            write_bool(out, x);
            out.push('}');
            proof {
                reveal(ser_bool);
                reveal(ser_bool_items);
                assert(out@ =~= o0 + ser_bool(bool_view(*e)));
            }
        },
        Bool::And(xs) => {
            push_k_obj_and(out);
            write_bool_items(out, xs);
            out.push(']');
            out.push('}');
            proof {
                reveal(ser_bool);
                reveal(ser_bool_items);
                assert(out@ =~= o0 + ser_bool(bool_view(*e)));
            }
        },
        Bool::Or(xs) => {
            push_k_obj_or(out);
            write_bool_items(out, xs);
            out.push(']');
            out.push('}');
            proof {
                reveal(ser_bool);
                reveal(ser_bool_items);
                assert(out@ =~= o0 + ser_bool(bool_view(*e)));
            }
        },
    }
}

/// Appends the comma-separated serializations of boolean expressions.
fn write_bool_items(out: &mut Vec<char>, xs: &Vec<Bool>)
    ensures
        final(out)@ == old(out)@ + ser_bool_items(bools_view(xs@)),
    decreases *xs,
{
    let ghost o0 = out@;
    let ghost vs = bools_view(xs@);
    proof {
        reveal(ser_bool_items);
        crate::expression::lemma_bools_view_index(xs@);
        assert(ser_bool_items(vs.take(0)) =~= Seq::<char>::empty());
        assert(out@ =~= o0 + ser_bool_items(vs.take(0)));
    }
    let mut i: usize = 0;
    while i < xs.len()
        invariant
            vs == bools_view(xs@),
            vs.len() == xs@.len(),
            xs@.len() == xs.len(),
            forall|k: int| 0 <= k < xs@.len() ==> #[trigger] vs[k] == bool_view(xs@[k]),
            0 <= i <= xs.len(),
            out@ == o0 + ser_bool_items(vs.take(i as int)),
        decreases xs.len() - i,
    {
        if i > 0 {
            out.push(',');
        }
        write_bool(out, &xs[i]);
        proof {
            reveal(ser_bool);
            reveal(ser_bool_items);
            assert(vs.take(i + 1).drop_last() =~= vs.take(i as int));
            assert(vs.take(i + 1).last() == vs[i as int]);
            if i == 0 {
                assert(ser_bool_items(vs.take(1)) == ser_bool(vs[0]));
                assert(out@ =~= o0 + ser_bool_items(vs.take(i + 1)));
            } else {
                assert(out@ =~= o0 + ser_bool_items(vs.take(i + 1)));
            }
        }
        i = i + 1;
    }
    proof {
        reveal(ser_bool_items);
        assert(vs.take(xs@.len() as int) =~= vs);
    }
}

/// Appends the serialization of a string expression.
fn write_str(out: &mut Vec<char>, e: &Str)
    ensures
        final(out)@ == old(out)@ + ser_str(str_view(*e)),
    decreases *e,
{
    let ghost o0 = out@;
    match e {
        Str::Constant(s) => {
            push_k_obj_constant(out);
            push_string(out, s);
            out.push('}');
            proof {
                reveal(ser_str);
                assert(out@ =~= o0 + ser_str(str_view(*e)));
            }
        },
        Str::Attribute(k) => {
            push_k_obj_attribute(out);
            push_string(out, k);
            out.push('}');
            proof {
                reveal(ser_str);
                assert(out@ =~= o0 + ser_str(str_view(*e)));
            }
        },
        Str::Base64(v) => {
            push_k_obj_base64(out);
            write_str(out, v);
            out.push('}');
            proof {
                reveal(ser_str);
                assert(out@ =~= o0 + ser_str(str_view(*e)));
            }
        },
        Str::Extract { regex, value } => {
            push_k_obj_extract(out);
            push_string(out, regex);
            push_k_mid_value(out);
            write_str(out, value);
            out.push('}');
            out.push('}');
            proof {
                reveal(ser_str);
                assert(out@ =~= o0 + ser_str(str_view(*e)));
            }
        },
        Str::Cookie(n) => {
            push_k_obj_cookie(out);
            push_string(out, n);
            out.push('}');
            proof {
                reveal(ser_str);
                assert(out@ =~= o0 + ser_str(str_view(*e)));
            }
        },
        Str::Browser => {
            push_k_lit_browser(out);
            proof {
                reveal(ser_str);
                assert(out@ =~= o0 + ser_str(str_view(*e)));
            }
        },
        Str::BrowserVersion => {
            push_k_lit_browser_version(out);
            proof {
                reveal(ser_str);
                assert(out@ =~= o0 + ser_str(str_view(*e)));
            }
        },
        Str::OperatingSystem => {
            push_k_lit_operating_system(out);
            proof {
                reveal(ser_str);
                assert(out@ =~= o0 + ser_str(str_view(*e)));
            }
        },
        Str::JsonPointer { pointer, value } => {
            push_k_obj_json_pointer(out);
            push_string(out, pointer);
            push_k_mid_value(out);
            write_str(out, value);
            out.push('}');
            out.push('}');
            proof {
                reveal(ser_str);
                assert(out@ =~= o0 + ser_str(str_view(*e)));
            }
        },
        Str::First(l) => {
            push_k_obj_first(out);
            write_strlist(out, l);
            out.push('}');
            proof {
                reveal(ser_str);
                reveal(ser_strlist);
                assert(str_view(*e) == StrV::First(Box::new(strlist_view(**l))));
                assert(*Box::new(strlist_view(**l)) == strlist_view(**l));
                assert(ser_str(str_view(*e)) == k_obj_first() + ser_strlist(strlist_view(**l))
                    + seq!['}']);
                assert(out@ =~= o0 + ser_str(str_view(*e)));
            }
        },
        Str::Last(l) => {
            push_k_obj_last(out);
            write_strlist(out, l);
            out.push('}');
            proof {
                reveal(ser_str);
                reveal(ser_strlist);
                assert(str_view(*e) == StrV::Last(Box::new(strlist_view(**l))));
                assert(*Box::new(strlist_view(**l)) == strlist_view(**l));
                assert(out@ =~= o0 + ser_str(str_view(*e)));
            }
        },
    }
}

/// Appends the serialization of a string-list expression.
fn write_strlist(out: &mut Vec<char>, e: &StrList)
    ensures
        final(out)@ == old(out)@ + ser_strlist(strlist_view(*e)),
    decreases *e,
{
    let ghost o0 = out@;
    match e {
        StrList::Constant(vs) => {
            push_k_obj_constant(out);
            out.push('[');
            let ghost dv = vs.deep_view();
            let mut i: usize = 0;
            proof {
                reveal(ser_strlist);
                reveal(ser_string_items);
                assert(ser_string_items(dv.take(0)) =~= Seq::<char>::empty());
                assert(out@ =~= o0 + k_obj_constant() + seq!['['] + ser_string_items(dv.take(0)));
            }
            while i < vs.len()
                invariant
                    dv == vs.deep_view(),
                    dv.len() == vs@.len(),
                    vs@.len() == vs.len(),
                    0 <= i <= vs.len(),
                    out@ == o0 + k_obj_constant() + seq!['['] + ser_string_items(dv.take(i as int)),
                decreases vs.len() - i,
            {
                if i > 0 {
                    out.push(',');
                }
                push_string(out, &vs[i]);
                proof {
                    reveal(ser_strlist);
                    reveal(ser_string_items);
                    assert(vs@[i as int].deep_view() == dv[i as int]);
                    assert(dv.take(i + 1).drop_last() =~= dv.take(i as int));
                    assert(dv.take(i + 1).last() == dv[i as int]);
                    assert(out@ =~= o0 + k_obj_constant() + seq!['['] + ser_string_items(dv.take(
                        i + 1,
                    )));
                }
                i = i + 1;
            }
            out.push(']');
            out.push('}');
            proof {
                reveal(ser_strlist);
                reveal(ser_string_items);
                assert(dv.take(vs@.len() as int) =~= dv);
                assert(out@ =~= o0 + ser_strlist(strlist_view(*e)));
            }
        },
        StrList::Split { separator, value } => {
            push_k_obj_split(out);
            push_string(out, separator);
            push_k_mid_value(out);
            write_str(out, value);
            out.push('}');
            out.push('}');
            proof {
                reveal(ser_strlist);
                reveal(ser_string_items);
                reveal(ser_str);
                assert(out@ =~= o0 + ser_strlist(strlist_view(*e)));
            }
        },
        StrList::Extract { regex, value } => {
            push_k_obj_extract(out);
            push_string(out, regex);
            push_k_mid_value(out);
            write_str(out, value);
            out.push('}');
            out.push('}');
            proof {
                reveal(ser_strlist);
                reveal(ser_string_items);
                reveal(ser_str);
                assert(out@ =~= o0 + ser_strlist(strlist_view(*e)));
            }
        },
        StrList::HttpQualityValue(v) => {
            push_k_obj_http_quality_value(out);
            write_str(out, v);
            out.push('}');
            proof {
                reveal(ser_strlist);
                reveal(ser_string_items);
                reveal(ser_str);
                assert(out@ =~= o0 + ser_strlist(strlist_view(*e)));
            }
        },
    }
}

/// Appends the serialization of a number expression; the literal text of a
/// constant is written as it stands.
fn write_num(out: &mut Vec<char>, e: &Num)
    ensures
        final(out)@ == old(out)@ + ser_num(num_view(*e)),
    decreases *e,
{
    let ghost o0 = out@;
    match e {
        Num::Constant(t) => {
            push_k_obj_constant(out);
            let tc = crate::strutil::to_chars(t.as_str());
            push_all(out, &tc);
            out.push('}');
            proof {
                reveal(ser_num);
                assert(out@ =~= o0 + ser_num(num_view(*e)));
            }
        },
        Num::Attribute(k) => {
            push_k_obj_attribute(out);
            push_string(out, k);
            out.push('}');
            proof {
                reveal(ser_num);
                assert(out@ =~= o0 + ser_num(num_view(*e)));
            }
        },
        Num::Rank(v) => {
            push_k_obj_rank(out);
            write_str(out, v);
            out.push('}');
            proof {
                reveal(ser_num);
                assert(out@ =~= o0 + ser_num(num_view(*e)));
            }
        },
        Num::JsonPointer { pointer, value } => {
            push_k_obj_json_pointer(out);
            push_string(out, pointer);
            push_k_mid_value(out);
            write_str(out, value);
            out.push('}');
            out.push('}');
            proof {
                reveal(ser_num);
                assert(out@ =~= o0 + ser_num(num_view(*e)));
            }
        },
    }
}

/// Appends the serialization of a feature.
fn write_feature(out: &mut Vec<char>, f: &Feature)
    ensures
        final(out)@ == old(out)@ + ser_feature(feature_view(*f)),
{
    let ghost o0 = out@;
    push_k_obj_name(out);
    push_string(out, &f.name);
    push_k_mid_rule(out);
    write_bool(out, &f.rule);
    out.push('}');
    proof {
        reveal(ser_feature);
        assert(out@ =~= o0 + ser_feature(feature_view(*f)));
    }
}

/// Serializes an explicit configuration to its JSON text.
pub fn explicit_to_json(config: &crate::explicit::Config) -> (r: String)
    ensures
        r@ == ser_explicit(config.view_spec()),
{
    let ghost cfg = strlists_view(config.0@);
    proof {
        crate::expression::lemma_strlists_view_index(config.0@);
    }
    let mut out: Vec<char> = Vec::new();
    out.push('[');
    let mut i: usize = 0;
    proof {
        reveal(ser_strlist_items);
        assert(ser_strlist_items(cfg.take(0)) =~= Seq::<char>::empty());
        assert(out@ =~= seq!['['] + ser_strlist_items(cfg.take(0)));
    }
    while i < config.0.len()
        invariant
            cfg == strlists_view(config.0@),
            cfg.len() == config.0@.len(),
            config.0@.len() == config.0.len(),
            forall|k: int| 0 <= k < config.0@.len() ==> #[trigger] cfg[k] == strlist_view(
                config.0@[k],
            ),
            0 <= i <= config.0.len(),
            out@ == seq!['['] + ser_strlist_items(cfg.take(i as int)),
        decreases config.0.len() - i,
    {
        if i > 0 {
            out.push(',');
        }
        write_strlist(&mut out, &config.0[i]);
        proof {
            reveal(ser_strlist_items);
            assert(cfg.take(i + 1).drop_last() =~= cfg.take(i as int));
            assert(cfg.take(i + 1).last() == cfg[i as int]);
            assert(out@ =~= seq!['['] + ser_strlist_items(cfg.take(i + 1)));
        }
        i = i + 1;
    }
    out.push(']');
    proof {
        reveal(ser_strlist_items);
        assert(cfg.take(config.0@.len() as int) =~= cfg);
        assert(out@ =~= ser_explicit(cfg));
    }
    chars_to_string(&out)
}

/// Serializes an implicit configuration to its JSON text.
pub fn implicit_to_json(config: &crate::implicit::Config) -> (r: String)
    ensures
        r@ == ser_implicit(config.view_spec()),
{
    let ghost cfg = features_view(config.0@);
    proof {
        crate::implicit::lemma_features_view_index(config.0@);
    }
    let mut out: Vec<char> = Vec::new();
    out.push('[');
    let mut i: usize = 0;
    proof {
        reveal(ser_feature_items);
        assert(ser_feature_items(cfg.take(0)) =~= Seq::<char>::empty());
        assert(out@ =~= seq!['['] + ser_feature_items(cfg.take(0)));
    }
    while i < config.0.len()
        invariant
            cfg == features_view(config.0@),
            cfg.len() == config.0@.len(),
            config.0@.len() == config.0.len(),
            forall|k: int| 0 <= k < config.0@.len() ==> #[trigger] cfg[k] == feature_view(
                config.0@[k],
            ),
            0 <= i <= config.0.len(),
            out@ == seq!['['] + ser_feature_items(cfg.take(i as int)),
        decreases config.0.len() - i,
    {
        if i > 0 {
            out.push(',');
        }
        write_feature(&mut out, &config.0[i]);
        proof {
            reveal(ser_feature_items);
            assert(cfg.take(i + 1).drop_last() =~= cfg.take(i as int));
            assert(cfg.take(i + 1).last() == cfg[i as int]);
            assert(out@ =~= seq!['['] + ser_feature_items(cfg.take(i + 1)));
        }
        i = i + 1;
    }
    out.push(']');
    proof {
        reveal(ser_feature_items);
        assert(cfg.take(config.0@.len() as int) =~= cfg);
        assert(out@ =~= ser_implicit(cfg));
    }
    chars_to_string(&out)
}



} // verus!
