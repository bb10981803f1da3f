//! Shape facts about the serialized configuration grammar.
//!
//! Every tagged form opens with `{"` tag `":`; this module names each
//! variant's tag, decomposes each serialized form into its head and its
//! payload, and proves the writer injective: two well-formed values with
//! the same serialization are equal. The reader's completeness proof and
//! the round-trip contracts of the configuration codec rest on these.

use crate::codec::{
    quoted, ser_bool, ser_bool_items, ser_explicit, ser_feature, ser_feature_items, ser_implicit,
    ser_num, ser_str, ser_string_items, ser_strlist, ser_strlist_items,
};
use crate::expression::{BoolV, NumV, StrListV, StrV};
use crate::implicit::FeatureV;
use crate::jstring::{all_plain, esc_str, lemma_esc_plain, lemma_scan_esc, scan_jstr};
use crate::strutil::{
    begins_with, lemma_begins_concat, lemma_begins_decompose, lemma_begins_of_concat,
    lemma_begins_trans, lemma_concat_cancel, lemma_skip_skip,
};
use vstd::prelude::*;

verus! {

broadcast use
    vstd::seq::axiom_seq_index_decreases,
;

/// The opening of a tagged object: `{"` tag `":`.
pub open spec fn tag_head(t: Seq<char>) -> Seq<char> {
    seq!['{', '"'] + esc_str(t) + seq!['"', ':']
}

/// The tag of a boolean expression's serialized form.
pub open spec fn bool_tag(x: BoolV) -> Seq<char> {
    match x {
        BoolV::Constant(_) => "constant"@,
        BoolV::Attribute(_) => "attribute"@,
        BoolV::In { .. } => "in"@,
        BoolV::AnyIn { .. } => "any_in"@,
        BoolV::AllIn { .. } => "all_in"@,
        BoolV::JsonPointer { .. } => "json_pointer"@,
        BoolV::Matches(_, _) => "matches"@,
        BoolV::StrEq(_, _) => "str_eq"@,
        BoolV::NumEq(_, _) => "num_eq"@,
        BoolV::Gt(_, _) => "gt"@,
        BoolV::Lt(_, _) => "lt"@,
        BoolV::Gte(_, _) => "gte"@,
        BoolV::Lte(_, _) => "lte"@,
        BoolV::Not(_) => "not"@,
        BoolV::And(_) => "and"@,
        BoolV::Or(_) => "or"@,
    }
}

/// The tag of a string expression's serialized form; a unit variant is
/// written as its bare quoted name instead.
pub open spec fn str_tag(x: StrV) -> Seq<char> {
    match x {
        StrV::Constant(_) => "constant"@,
        StrV::Attribute(_) => "attribute"@,
        StrV::Base64(_) => "base64"@,
        StrV::Extract { .. } => "extract"@,
        StrV::Cookie(_) => "cookie"@,
        StrV::Browser => "browser"@,
        StrV::BrowserVersion => "browser_version"@,
        StrV::OperatingSystem => "operating_system"@,
        StrV::JsonPointer { .. } => "json_pointer"@,
        StrV::First(_) => "first"@,
        StrV::Last(_) => "last"@,
    }
}

/// Whether a string expression serializes as a tagged object.
pub open spec fn str_tagged(x: StrV) -> bool {
    !(x is Browser || x is BrowserVersion || x is OperatingSystem)
}

/// The tag of a string-list expression's serialized form.
pub open spec fn strlist_tag(x: StrListV) -> Seq<char> {
    match x {
        StrListV::Constant(_) => "constant"@,
        StrListV::Split { .. } => "split"@,
        StrListV::Extract { .. } => "extract"@,
        StrListV::HttpQualityValue(_) => "http_quality_value"@,
    }
}

/// The tag of a number expression's serialized form.
pub open spec fn num_tag(x: NumV) -> Seq<char> {
    match x {
        NumV::Constant(_) => "constant"@,
        NumV::Attribute(_) => "attribute"@,
        NumV::Rank(_) => "rank"@,
        NumV::JsonPointer { .. } => "json_pointer"@,
    }
}

/// A character that may appear in a serialized numeric literal.
pub open spec fn num_lit_char(c: char) -> bool {
    ('0' <= c && c <= '9') || c == '-' || c == '+' || c == '.' || c == 'e' || c == 'E'
}

/// A non-empty numeric literal: only number-token characters.
pub open spec fn num_lit(t: Seq<char>) -> bool {
    t.len() > 0 && (forall|i: int| 0 <= i < t.len() ==> num_lit_char(#[trigger] t[i]))
}

/// A number expression whose constants are numeric literals.
pub open spec fn wf_num(x: NumV) -> bool {
    match x {
        NumV::Constant(t) => num_lit(t),
        _ => true,
    }
}

/// A boolean expression whose numeric constants are numeric literals.
pub open spec fn wf_bool(x: BoolV) -> bool
    decreases x,
{
    match x {
        BoolV::NumEq(a, b) => wf_num(*a) && wf_num(*b),
        BoolV::Gt(a, b) => wf_num(*a) && wf_num(*b),
        BoolV::Lt(a, b) => wf_num(*a) && wf_num(*b),
        BoolV::Gte(a, b) => wf_num(*a) && wf_num(*b),
        BoolV::Lte(a, b) => wf_num(*a) && wf_num(*b),
        BoolV::Not(y) => wf_bool(*y),
        BoolV::And(xs) => forall|i: int| 0 <= i < xs.len() ==> wf_bool(#[trigger] xs[i]),
        BoolV::Or(xs) => forall|i: int| 0 <= i < xs.len() ==> wf_bool(#[trigger] xs[i]),
        _ => true,
    }
}

/// A sequence of well-formed boolean expressions.
pub open spec fn wf_bools(xs: Seq<BoolV>) -> bool {
    forall|i: int| 0 <= i < xs.len() ==> wf_bool(#[trigger] xs[i])
}

/// A feature whose rule is well-formed.
pub open spec fn wf_feature(f: FeatureV) -> bool {
    wf_bool(f.rule)
}

/// A configuration of well-formed features.
pub open spec fn wf_features(fs: Seq<FeatureV>) -> bool {
    forall|i: int| 0 <= i < fs.len() ==> wf_feature(#[trigger] fs[i])
}

/// Length and leading characters of every tag and bare name, enough to
/// tell any two of them apart.
pub proof fn lemma_tag_lits()
    ensures
        "constant"@.len() == 8 && "constant"@[0] == 'c' && "constant"@[1] == 'o',
        "attribute"@.len() == 9 && "attribute"@[0] == 'a',
        "in"@.len() == 2 && "in"@[0] == 'i',
        "any_in"@.len() == 6 && "any_in"@[0] == 'a' && "any_in"@[1] == 'n',
        "all_in"@.len() == 6 && "all_in"@[0] == 'a' && "all_in"@[1] == 'l',
        "json_pointer"@.len() == 12 && "json_pointer"@[0] == 'j',
        "matches"@.len() == 7 && "matches"@[0] == 'm',
        "str_eq"@.len() == 6 && "str_eq"@[0] == 's',
        "num_eq"@.len() == 6 && "num_eq"@[0] == 'n',
        "gt"@.len() == 2 && "gt"@[0] == 'g',
        "lt"@.len() == 2 && "lt"@[0] == 'l',
        "gte"@.len() == 3 && "gte"@[0] == 'g',
        "lte"@.len() == 3 && "lte"@[0] == 'l',
        "not"@.len() == 3 && "not"@[0] == 'n',
        "and"@.len() == 3 && "and"@[0] == 'a',
        "or"@.len() == 2 && "or"@[0] == 'o',
        "base64"@.len() == 6 && "base64"@[0] == 'b',
        "extract"@.len() == 7 && "extract"@[0] == 'e',
        "cookie"@.len() == 6 && "cookie"@[0] == 'c',
        "split"@.len() == 5 && "split"@[0] == 's',
        "http_quality_value"@.len() == 18 && "http_quality_value"@[0] == 'h',
        "rank"@.len() == 4 && "rank"@[0] == 'r',
        "first"@.len() == 5 && "first"@[0] == 'f',
        "last"@.len() == 4 && "last"@[0] == 'l',
        "browser"@.len() == 7 && "browser"@[0] == 'b',
        "browser_version"@.len() == 15,
        "operating_system"@.len() == 16,
{
    reveal_strlit("constant");
    reveal_strlit("attribute");
    reveal_strlit("in");
    reveal_strlit("any_in");
    reveal_strlit("all_in");
    reveal_strlit("json_pointer");
    reveal_strlit("matches");
    reveal_strlit("str_eq");
    reveal_strlit("num_eq");
    reveal_strlit("gt");
    reveal_strlit("lt");
    reveal_strlit("gte");
    reveal_strlit("lte");
    reveal_strlit("not");
    reveal_strlit("and");
    reveal_strlit("or");
    reveal_strlit("base64");
    reveal_strlit("extract");
    reveal_strlit("cookie");
    reveal_strlit("split");
    reveal_strlit("http_quality_value");
    reveal_strlit("rank");
    reveal_strlit("first");
    reveal_strlit("last");
    reveal_strlit("browser");
    reveal_strlit("browser_version");
    reveal_strlit("operating_system");
}

/// A tagged head is at least four characters and opens with `{`.
pub proof fn lemma_tag_head_first(t: Seq<char>)
    ensures
        tag_head(t).len() >= 4,
        tag_head(t).len() == 4 + esc_str(t).len(),
        tag_head(t)[0] == '{',
{
    assert(tag_head(t)[0] == '{');
}

/// Decomposition of each serialized number expression.
#[verifier::rlimit(100)]
pub proof fn lemma_num_shape(x: NumV)
    ensures
        ser_num(x).len() > 0,
        ser_num(x)[0] == '{',
        all_plain(num_tag(x)),
        begins_with(ser_num(x), tag_head(num_tag(x))),
        (match x {
            NumV::Constant(t) => ser_num(x) == tag_head("constant"@) + (t + seq!['}']),
            NumV::Attribute(k) => ser_num(x) == tag_head("attribute"@) + (quoted(k) + seq!['}']),
            NumV::Rank(v) => ser_num(x) == tag_head("rank"@) + (ser_str(*v) + seq!['}']),
            NumV::JsonPointer { pointer, value } => ser_num(x) == tag_head("json_pointer"@) + (
            "{\"pointer\":"@ + (quoted(pointer) + (",\"value\":"@ + (ser_str(*value) + seq![
                '}',
                '}',
            ])))),
        }),
{
    reveal(ser_num);
    lemma_tag_lits();
    match x {
        NumV::Constant(t) => {
            reveal_strlit("constant");
            assert(all_plain("constant"@));
            lemma_esc_plain("constant"@);
            lemma_tag_head_first("constant"@);
            assert(ser_num(x) =~= tag_head("constant"@) + (t + seq!['}']));
            lemma_begins_of_concat(tag_head("constant"@), t + seq!['}']);
            assert(ser_num(x)[0] == '{');
        },
        NumV::Attribute(k) => {
            reveal_strlit("attribute");
            assert(all_plain("attribute"@));
            lemma_esc_plain("attribute"@);
            lemma_tag_head_first("attribute"@);
            assert(ser_num(x) =~= tag_head("attribute"@) + (quoted(k) + seq!['}']));
            lemma_begins_of_concat(tag_head("attribute"@), quoted(k) + seq!['}']);
            assert(ser_num(x)[0] == '{');
        },
        NumV::Rank(v) => {
            reveal_strlit("rank");
            assert(all_plain("rank"@));
            lemma_esc_plain("rank"@);
            lemma_tag_head_first("rank"@);
            assert(ser_num(x) =~= tag_head("rank"@) + (ser_str(*v) + seq!['}']));
            lemma_begins_of_concat(tag_head("rank"@), ser_str(*v) + seq!['}']);
            assert(ser_num(x)[0] == '{');
        },
        NumV::JsonPointer { pointer, value } => {
            reveal_strlit("json_pointer");
            reveal_strlit("{\"pointer\":");
            reveal_strlit(",\"value\":");
            assert(all_plain("json_pointer"@));
            lemma_esc_plain("json_pointer"@);
            lemma_tag_head_first("json_pointer"@);
            assert(ser_num(x) =~= tag_head("json_pointer"@) + ("{\"pointer\":"@ + (quoted(pointer)
                + (",\"value\":"@ + (ser_str(*value) + seq!['}', '}'])))));
            lemma_begins_of_concat(
                tag_head("json_pointer"@),
                "{\"pointer\":"@ + (quoted(pointer) + (",\"value\":"@ + (ser_str(*value) + seq![
                    '}',
                    '}',
                ]))),
            );
            assert(ser_num(x)[0] == '{');
        },
    }
}

/// Decomposition of each serialized string expression.
#[verifier::rlimit(100)]
pub proof fn lemma_str_shape(x: StrV)
    ensures
        ser_str(x).len() > 0,
        all_plain(str_tag(x)),
        str_tagged(x) ==> ser_str(x)[0] == '{' && begins_with(ser_str(x), tag_head(str_tag(x))),
        !str_tagged(x) ==> ser_str(x)[0] == '"' && ser_str(x) == quoted(str_tag(x)),
        (match x {
            StrV::Constant(s) => ser_str(x) == tag_head("constant"@) + (quoted(s) + seq!['}']),
            StrV::Attribute(k) => ser_str(x) == tag_head("attribute"@) + (quoted(k) + seq!['}']),
            StrV::Base64(v) => ser_str(x) == tag_head("base64"@) + (ser_str(*v) + seq!['}']),
            StrV::Extract { regex, value } => ser_str(x) == tag_head("extract"@) + ("{\"regex\":"@
                + (quoted(regex) + (",\"value\":"@ + (ser_str(*value) + seq!['}', '}'])))),
            StrV::Cookie(n) => ser_str(x) == tag_head("cookie"@) + (quoted(n) + seq!['}']),
            StrV::Browser => ser_str(x) == quoted("browser"@),
            StrV::BrowserVersion => ser_str(x) == quoted("browser_version"@),
            StrV::OperatingSystem => ser_str(x) == quoted("operating_system"@),
            StrV::JsonPointer { pointer, value } => ser_str(x) == tag_head("json_pointer"@) + (
            "{\"pointer\":"@ + (quoted(pointer) + (",\"value\":"@ + (ser_str(*value) + seq![
                '}',
                '}',
            ])))),
            StrV::First(l) => ser_str(x) == tag_head("first"@) + (ser_strlist(*l) + seq!['}']),
            StrV::Last(l) => ser_str(x) == tag_head("last"@) + (ser_strlist(*l) + seq!['}']),
        }),
{
    reveal(ser_str);
    reveal(ser_strlist);
    lemma_tag_lits();
    match x {
        StrV::Constant(s) => {
            reveal_strlit("constant");
            assert(all_plain("constant"@));
            lemma_esc_plain("constant"@);
            lemma_tag_head_first("constant"@);
            assert(ser_str(x) =~= tag_head("constant"@) + (quoted(s) + seq!['}']));
            lemma_begins_of_concat(tag_head("constant"@), quoted(s) + seq!['}']);
            assert(ser_str(x)[0] == '{');
        },
        StrV::Attribute(k) => {
            reveal_strlit("attribute");
            assert(all_plain("attribute"@));
            lemma_esc_plain("attribute"@);
            lemma_tag_head_first("attribute"@);
            assert(ser_str(x) =~= tag_head("attribute"@) + (quoted(k) + seq!['}']));
            lemma_begins_of_concat(tag_head("attribute"@), quoted(k) + seq!['}']);
            assert(ser_str(x)[0] == '{');
        },
        StrV::Base64(v) => {
            reveal_strlit("base64");
            assert(all_plain("base64"@));
            lemma_esc_plain("base64"@);
            lemma_tag_head_first("base64"@);
            assert(ser_str(x) =~= tag_head("base64"@) + (ser_str(*v) + seq!['}']));
            lemma_begins_of_concat(tag_head("base64"@), ser_str(*v) + seq!['}']);
            assert(ser_str(x)[0] == '{');
        },
        StrV::Extract { regex, value } => {
            reveal_strlit("extract");
            reveal_strlit("{\"regex\":");
            reveal_strlit(",\"value\":");
            assert(all_plain("extract"@));
            lemma_esc_plain("extract"@);
            lemma_tag_head_first("extract"@);
            assert(ser_str(x) =~= tag_head("extract"@) + ("{\"regex\":"@ + (quoted(regex) + (
            ",\"value\":"@ + (ser_str(*value) + seq!['}', '}'])))));
            lemma_begins_of_concat(
                tag_head("extract"@),
                "{\"regex\":"@ + (quoted(regex) + (",\"value\":"@ + (ser_str(*value) + seq![
                    '}',
                    '}',
                ]))),
            );
            assert(ser_str(x)[0] == '{');
        },
        StrV::Cookie(n) => {
            reveal_strlit("cookie");
            assert(all_plain("cookie"@));
            lemma_esc_plain("cookie"@);
            lemma_tag_head_first("cookie"@);
            assert(ser_str(x) =~= tag_head("cookie"@) + (quoted(n) + seq!['}']));
            lemma_begins_of_concat(tag_head("cookie"@), quoted(n) + seq!['}']);
            assert(ser_str(x)[0] == '{');
        },
        StrV::Browser => {
            reveal_strlit("browser");
            assert(all_plain("browser"@));
            lemma_esc_plain("browser"@);
            assert(ser_str(x) =~= quoted("browser"@));
            assert(ser_str(x)[0] == '"');
        },
        StrV::BrowserVersion => {
            reveal_strlit("browser_version");
            assert(all_plain("browser_version"@));
            lemma_esc_plain("browser_version"@);
            assert(ser_str(x) =~= quoted("browser_version"@));
            assert(ser_str(x)[0] == '"');
        },
        StrV::OperatingSystem => {
            reveal_strlit("operating_system");
            assert(all_plain("operating_system"@));
            lemma_esc_plain("operating_system"@);
            assert(ser_str(x) =~= quoted("operating_system"@));
            assert(ser_str(x)[0] == '"');
        },
        StrV::JsonPointer { pointer, value } => {
            reveal_strlit("json_pointer");
            reveal_strlit("{\"pointer\":");
            reveal_strlit(",\"value\":");
            assert(all_plain("json_pointer"@));
            lemma_esc_plain("json_pointer"@);
            lemma_tag_head_first("json_pointer"@);
            assert(ser_str(x) =~= tag_head("json_pointer"@) + ("{\"pointer\":"@ + (quoted(pointer)
                + (",\"value\":"@ + (ser_str(*value) + seq!['}', '}'])))));
            lemma_begins_of_concat(
                tag_head("json_pointer"@),
                "{\"pointer\":"@ + (quoted(pointer) + (",\"value\":"@ + (ser_str(*value) + seq![
                    '}',
                    '}',
                ]))),
            );
            assert(ser_str(x)[0] == '{');
        },
        StrV::First(l) => {
            reveal_strlit("first");
            assert(all_plain("first"@));
            lemma_esc_plain("first"@);
            lemma_tag_head_first("first"@);
            assert(ser_str(x) =~= tag_head("first"@) + (ser_strlist(*l) + seq!['}']));
            lemma_begins_of_concat(tag_head("first"@), ser_strlist(*l) + seq!['}']);
            assert(ser_str(x)[0] == '{');
        },
        StrV::Last(l) => {
            reveal_strlit("last");
            assert(all_plain("last"@));
            lemma_esc_plain("last"@);
            lemma_tag_head_first("last"@);
            assert(ser_str(x) =~= tag_head("last"@) + (ser_strlist(*l) + seq!['}']));
            lemma_begins_of_concat(tag_head("last"@), ser_strlist(*l) + seq!['}']);
            assert(ser_str(x)[0] == '{');
        },
    }
}

/// Decomposition of each serialized string-list expression.
#[verifier::rlimit(100)]
pub proof fn lemma_strlist_shape(x: StrListV)
    ensures
        ser_strlist(x).len() > 0,
        ser_strlist(x)[0] == '{',
        all_plain(strlist_tag(x)),
        begins_with(ser_strlist(x), tag_head(strlist_tag(x))),
        (match x {
            StrListV::Constant(vs) => ser_strlist(x) == tag_head("constant"@) + (seq!['['] + (
            ser_string_items(vs) + seq![']', '}'])),
            StrListV::Split { separator, value } => ser_strlist(x) == tag_head("split"@) + (
            "{\"separator\":"@ + (quoted(separator) + (",\"value\":"@ + (ser_str(*value) + seq![
                '}',
                '}',
            ])))),
            StrListV::Extract { regex, value } => ser_strlist(x) == tag_head("extract"@) + (
            "{\"regex\":"@ + (quoted(regex) + (",\"value\":"@ + (ser_str(*value) + seq![
                '}',
                '}',
            ])))),
            StrListV::HttpQualityValue(v) => ser_strlist(x) == tag_head("http_quality_value"@) + (
            ser_str(*v) + seq!['}']),
        }),
{
    reveal(ser_strlist);
    reveal(ser_str);
    lemma_tag_lits();
    match x {
        StrListV::Constant(vs) => {
            reveal_strlit("constant");
            assert(all_plain("constant"@));
            lemma_esc_plain("constant"@);
            lemma_tag_head_first("constant"@);
            assert(ser_strlist(x) =~= tag_head("constant"@) + (seq!['['] + (ser_string_items(vs)
                + seq![']', '}'])));
            lemma_begins_of_concat(
                tag_head("constant"@),
                seq!['['] + (ser_string_items(vs) + seq![']', '}']),
            );
            assert(ser_strlist(x)[0] == '{');
        },
        StrListV::Split { separator, value } => {
            reveal_strlit("split");
            reveal_strlit("{\"separator\":");
            reveal_strlit(",\"value\":");
            assert(all_plain("split"@));
            lemma_esc_plain("split"@);
            lemma_tag_head_first("split"@);
            assert(ser_strlist(x) =~= tag_head("split"@) + ("{\"separator\":"@ + (quoted(separator)
                + (",\"value\":"@ + (ser_str(*value) + seq!['}', '}'])))));
            lemma_begins_of_concat(
                tag_head("split"@),
                "{\"separator\":"@ + (quoted(separator) + (",\"value\":"@ + (ser_str(*value)
                    + seq!['}', '}']))),
            );
            assert(ser_strlist(x)[0] == '{');
        },
        StrListV::Extract { regex, value } => {
            reveal_strlit("extract");
            reveal_strlit("{\"regex\":");
            reveal_strlit(",\"value\":");
            assert(all_plain("extract"@));
            lemma_esc_plain("extract"@);
            lemma_tag_head_first("extract"@);
            assert(ser_strlist(x) =~= tag_head("extract"@) + ("{\"regex\":"@ + (quoted(regex) + (
            ",\"value\":"@ + (ser_str(*value) + seq!['}', '}'])))));
            lemma_begins_of_concat(
                tag_head("extract"@),
                "{\"regex\":"@ + (quoted(regex) + (",\"value\":"@ + (ser_str(*value) + seq![
                    '}',
                    '}',
                ]))),
            );
            assert(ser_strlist(x)[0] == '{');
        },
        StrListV::HttpQualityValue(v) => {
            reveal_strlit("http_quality_value");
            assert(all_plain("http_quality_value"@));
            lemma_esc_plain("http_quality_value"@);
            lemma_tag_head_first("http_quality_value"@);
            assert(ser_strlist(x) =~= tag_head("http_quality_value"@) + (ser_str(*v) + seq!['}']));
            lemma_begins_of_concat(tag_head("http_quality_value"@), ser_str(*v) + seq!['}']);
            assert(ser_strlist(x)[0] == '{');
        },
    }
}

/// Decomposition of each serialized boolean expression.
#[verifier::rlimit(100)]
pub proof fn lemma_bool_shape(x: BoolV)
    ensures
        ser_bool(x).len() > 0,
        ser_bool(x)[0] == '{',
        all_plain(bool_tag(x)),
        begins_with(ser_bool(x), tag_head(bool_tag(x))),
        (match x {
            BoolV::Constant(b) => ser_bool(x) == tag_head("constant"@) + (if b {
                "true}"@
            } else {
                "false}"@
            }),
            BoolV::Attribute(k) => ser_bool(x) == tag_head("attribute"@) + (quoted(k) + seq!['}']),
            BoolV::In { list, value } => ser_bool(x) == tag_head("in"@) + ("{\"list\":"@ + (
            ser_strlist(*list) + (",\"value\":"@ + (ser_str(*value) + seq!['}', '}'])))),
            BoolV::AnyIn { list, values } => ser_bool(x) == tag_head("any_in"@) + ("{\"list\":"@
                + (ser_strlist(*list) + (",\"values\":"@ + (ser_strlist(*values) + seq![
                '}',
                '}',
            ])))),
            BoolV::AllIn { list, values } => ser_bool(x) == tag_head("all_in"@) + ("{\"list\":"@
                + (ser_strlist(*list) + (",\"values\":"@ + (ser_strlist(*values) + seq![
                '}',
                '}',
            ])))),
            BoolV::JsonPointer { pointer, value } => ser_bool(x) == tag_head("json_pointer"@) + (
            "{\"pointer\":"@ + (quoted(pointer) + (",\"value\":"@ + (ser_str(*value) + seq![
                '}',
                '}',
            ])))),
            BoolV::Matches(re, v) => ser_bool(x) == tag_head("matches"@) + (seq!['['] + (quoted(re)
                + (seq![','] + (ser_str(*v) + seq![']', '}'])))),
            BoolV::StrEq(a, b) => ser_bool(x) == tag_head("str_eq"@) + (seq!['['] + (ser_str(*a) + (
            seq![','] + (ser_str(*b) + seq![']', '}'])))),
            BoolV::NumEq(a, b) => ser_bool(x) == tag_head("num_eq"@) + (seq!['['] + (ser_num(*a) + (
            seq![','] + (ser_num(*b) + seq![']', '}'])))),
            BoolV::Gt(a, b) => ser_bool(x) == tag_head("gt"@) + (seq!['['] + (ser_num(*a) + (seq![
                ',',
            ] + (ser_num(*b) + seq![']', '}'])))),
            BoolV::Lt(a, b) => ser_bool(x) == tag_head("lt"@) + (seq!['['] + (ser_num(*a) + (seq![
                ',',
            ] + (ser_num(*b) + seq![']', '}'])))),
            BoolV::Gte(a, b) => ser_bool(x) == tag_head("gte"@) + (seq!['['] + (ser_num(*a) + (seq![
                ',',
            ] + (ser_num(*b) + seq![']', '}'])))),
            BoolV::Lte(a, b) => ser_bool(x) == tag_head("lte"@) + (seq!['['] + (ser_num(*a) + (seq![
                ',',
            ] + (ser_num(*b) + seq![']', '}'])))),
            BoolV::Not(y) => ser_bool(x) == tag_head("not"@) + (ser_bool(*y) + seq!['}']),
            BoolV::And(xs) => ser_bool(x) == tag_head("and"@) + (seq!['['] + (ser_bool_items(xs)
                + seq![']', '}'])),
            BoolV::Or(xs) => ser_bool(x) == tag_head("or"@) + (seq!['['] + (ser_bool_items(xs)
                + seq![']', '}'])),
        }),
{
    reveal(ser_bool);
    reveal(ser_bool_items);
    lemma_tag_lits();
    match x {
        BoolV::Constant(b) => {
            reveal_strlit("constant");
            reveal_strlit("true}");
            reveal_strlit("false}");
            assert(all_plain("constant"@));
            lemma_esc_plain("constant"@);
            lemma_tag_head_first("constant"@);
            if b {
                assert(ser_bool(x) =~= tag_head("constant"@) + "true}"@);
            } else {
                assert(ser_bool(x) =~= tag_head("constant"@) + "false}"@);
            }
            assert(ser_bool(x)[0] == '{');
            assert(begins_with(ser_bool(x), tag_head("constant"@))) by {
                if b {
                    lemma_begins_of_concat(tag_head("constant"@), "true}"@);
                } else {
                    lemma_begins_of_concat(tag_head("constant"@), "false}"@);
                }
            }
        },
        BoolV::Attribute(k) => {
            reveal_strlit("attribute");
            assert(all_plain("attribute"@));
            lemma_esc_plain("attribute"@);
            lemma_tag_head_first("attribute"@);
            assert(ser_bool(x) =~= tag_head("attribute"@) + (quoted(k) + seq!['}']));
            lemma_begins_of_concat(tag_head("attribute"@), quoted(k) + seq!['}']);
            assert(ser_bool(x)[0] == '{');
        },
        BoolV::In { list, value } => {
            reveal_strlit("in");
            reveal_strlit("{\"list\":");
            reveal_strlit(",\"value\":");
            assert(all_plain("in"@));
            lemma_esc_plain("in"@);
            lemma_tag_head_first("in"@);
            assert(ser_bool(x) =~= tag_head("in"@) + ("{\"list\":"@ + (ser_strlist(*list) + (
            ",\"value\":"@ + (ser_str(*value) + seq!['}', '}'])))));
            lemma_begins_of_concat(
                tag_head("in"@),
                "{\"list\":"@ + (ser_strlist(*list) + (",\"value\":"@ + (ser_str(*value) + seq![
                    '}',
                    '}',
                ]))),
            );
            assert(ser_bool(x)[0] == '{');
        },
        BoolV::AnyIn { list, values } => {
            reveal_strlit("any_in");
            reveal_strlit("{\"list\":");
            reveal_strlit(",\"values\":");
            assert(all_plain("any_in"@));
            lemma_esc_plain("any_in"@);
            lemma_tag_head_first("any_in"@);
            assert(ser_bool(x) =~= tag_head("any_in"@) + ("{\"list\":"@ + (ser_strlist(*list) + (
            ",\"values\":"@ + (ser_strlist(*values) + seq!['}', '}'])))));
            lemma_begins_of_concat(
                tag_head("any_in"@),
                "{\"list\":"@ + (ser_strlist(*list) + (",\"values\":"@ + (ser_strlist(*values)
                    + seq!['}', '}']))),
            );
            assert(ser_bool(x)[0] == '{');
        },
        BoolV::AllIn { list, values } => {
            reveal_strlit("all_in");
            reveal_strlit("{\"list\":");
            reveal_strlit(",\"values\":");
            assert(all_plain("all_in"@));
            lemma_esc_plain("all_in"@);
            lemma_tag_head_first("all_in"@);
            assert(ser_bool(x) =~= tag_head("all_in"@) + ("{\"list\":"@ + (ser_strlist(*list) + (
            ",\"values\":"@ + (ser_strlist(*values) + seq!['}', '}'])))));
            lemma_begins_of_concat(
                tag_head("all_in"@),
                "{\"list\":"@ + (ser_strlist(*list) + (",\"values\":"@ + (ser_strlist(*values)
                    + seq!['}', '}']))),
            );
            assert(ser_bool(x)[0] == '{');
        },
        BoolV::JsonPointer { pointer, value } => {
            reveal_strlit("json_pointer");
            reveal_strlit("{\"pointer\":");
            reveal_strlit(",\"value\":");
            assert(all_plain("json_pointer"@));
            lemma_esc_plain("json_pointer"@);
            lemma_tag_head_first("json_pointer"@);
            assert(ser_bool(x) =~= tag_head("json_pointer"@) + ("{\"pointer\":"@ + (quoted(pointer)
                + (",\"value\":"@ + (ser_str(*value) + seq!['}', '}'])))));
            lemma_begins_of_concat(
                tag_head("json_pointer"@),
                "{\"pointer\":"@ + (quoted(pointer) + (",\"value\":"@ + (ser_str(*value) + seq![
                    '}',
                    '}',
                ]))),
            );
            assert(ser_bool(x)[0] == '{');
        },
        BoolV::Matches(re, v) => {
            reveal_strlit("matches");
            assert(all_plain("matches"@));
            lemma_esc_plain("matches"@);
            lemma_tag_head_first("matches"@);
            assert(ser_bool(x) =~= tag_head("matches"@) + (seq!['['] + (quoted(re) + (seq![','] + (
            ser_str(*v) + seq![']', '}'])))));
            lemma_begins_of_concat(
                tag_head("matches"@),
                seq!['['] + (quoted(re) + (seq![','] + (ser_str(*v) + seq![']', '}']))),
            );
            assert(ser_bool(x)[0] == '{');
        },
        BoolV::StrEq(a, b) => {
            reveal_strlit("str_eq");
            assert(all_plain("str_eq"@));
            lemma_esc_plain("str_eq"@);
            lemma_tag_head_first("str_eq"@);
            assert(ser_bool(x) =~= tag_head("str_eq"@) + (seq!['['] + (ser_str(*a) + (seq![','] + (
            ser_str(*b) + seq![']', '}'])))));
            lemma_begins_of_concat(
                tag_head("str_eq"@),
                seq!['['] + (ser_str(*a) + (seq![','] + (ser_str(*b) + seq![']', '}']))),
            );
            assert(ser_bool(x)[0] == '{');
        },
        BoolV::NumEq(a, b) => {
            reveal_strlit("num_eq");
            assert(all_plain("num_eq"@));
            lemma_esc_plain("num_eq"@);
            lemma_tag_head_first("num_eq"@);
            assert(ser_bool(x) =~= tag_head("num_eq"@) + (seq!['['] + (ser_num(*a) + (seq![','] + (
            ser_num(*b) + seq![']', '}'])))));
            lemma_begins_of_concat(
                tag_head("num_eq"@),
                seq!['['] + (ser_num(*a) + (seq![','] + (ser_num(*b) + seq![']', '}']))),
            );
            assert(ser_bool(x)[0] == '{');
        },
        BoolV::Gt(a, b) => {
            reveal_strlit("gt");
            assert(all_plain("gt"@));
            lemma_esc_plain("gt"@);
            lemma_tag_head_first("gt"@);
            assert(ser_bool(x) =~= tag_head("gt"@) + (seq!['['] + (ser_num(*a) + (seq![','] + (
            ser_num(*b) + seq![']', '}'])))));
            lemma_begins_of_concat(
                tag_head("gt"@),
                seq!['['] + (ser_num(*a) + (seq![','] + (ser_num(*b) + seq![']', '}']))),
            );
            assert(ser_bool(x)[0] == '{');
        },
        BoolV::Lt(a, b) => {
            reveal_strlit("lt");
            assert(all_plain("lt"@));
            lemma_esc_plain("lt"@);
            lemma_tag_head_first("lt"@);
            assert(ser_bool(x) =~= tag_head("lt"@) + (seq!['['] + (ser_num(*a) + (seq![','] + (
            ser_num(*b) + seq![']', '}'])))));
            lemma_begins_of_concat(
                tag_head("lt"@),
                seq!['['] + (ser_num(*a) + (seq![','] + (ser_num(*b) + seq![']', '}']))),
            );
            assert(ser_bool(x)[0] == '{');
        },
        BoolV::Gte(a, b) => {
            reveal_strlit("gte");
            assert(all_plain("gte"@));
            lemma_esc_plain("gte"@);
            lemma_tag_head_first("gte"@);
            assert(ser_bool(x) =~= tag_head("gte"@) + (seq!['['] + (ser_num(*a) + (seq![','] + (
            ser_num(*b) + seq![']', '}'])))));
            lemma_begins_of_concat(
                tag_head("gte"@),
                seq!['['] + (ser_num(*a) + (seq![','] + (ser_num(*b) + seq![']', '}']))),
            );
            assert(ser_bool(x)[0] == '{');
        },
        BoolV::Lte(a, b) => {
            reveal_strlit("lte");
            assert(all_plain("lte"@));
            lemma_esc_plain("lte"@);
            lemma_tag_head_first("lte"@);
            assert(ser_bool(x) =~= tag_head("lte"@) + (seq!['['] + (ser_num(*a) + (seq![','] + (
            ser_num(*b) + seq![']', '}'])))));
            lemma_begins_of_concat(
                tag_head("lte"@),
                seq!['['] + (ser_num(*a) + (seq![','] + (ser_num(*b) + seq![']', '}']))),
            );
            assert(ser_bool(x)[0] == '{');
        },
        BoolV::Not(y) => {
            reveal_strlit("not");
            assert(all_plain("not"@));
            lemma_esc_plain("not"@);
            lemma_tag_head_first("not"@);
            assert(ser_bool(x) =~= tag_head("not"@) + (ser_bool(*y) + seq!['}']));
            lemma_begins_of_concat(tag_head("not"@), ser_bool(*y) + seq!['}']);
            assert(ser_bool(x)[0] == '{');
        },
        BoolV::And(xs) => {
            reveal_strlit("and");
            assert(all_plain("and"@));
            lemma_esc_plain("and"@);
            lemma_tag_head_first("and"@);
            assert(ser_bool(x) =~= tag_head("and"@) + (seq!['['] + (ser_bool_items(xs) + seq![
                ']',
                '}',
            ])));
            lemma_begins_of_concat(
                tag_head("and"@),
                seq!['['] + (ser_bool_items(xs) + seq![']', '}']),
            );
            assert(ser_bool(x)[0] == '{');
        },
        BoolV::Or(xs) => {
            reveal_strlit("or");
            assert(all_plain("or"@));
            lemma_esc_plain("or"@);
            lemma_tag_head_first("or"@);
            assert(ser_bool(x) =~= tag_head("or"@) + (seq!['['] + (ser_bool_items(xs) + seq![
                ']',
                '}',
            ])));
            lemma_begins_of_concat(
                tag_head("or"@),
                seq!['['] + (ser_bool_items(xs) + seq![']', '}']),
            );
            assert(ser_bool(x)[0] == '{');
        },
    }
}

/// Decomposition of a serialized feature.
pub proof fn lemma_feature_shape(f: FeatureV)
    ensures
        ser_feature(f).len() > 0,
        ser_feature(f)[0] == '{',
        ser_feature(f) == "{\"name\":"@ + (quoted(f.name) + (",\"rule\":"@ + (ser_bool(f.rule)
            + seq!['}']))),
{
    reveal(ser_feature);
    reveal_strlit("{\"name\":");
    reveal_strlit(",\"rule\":");
    assert(ser_feature(f) =~= "{\"name\":"@ + (quoted(f.name) + (",\"rule\":"@ + (ser_bool(f.rule)
        + seq!['}']))));
    assert(ser_feature(f)[0] == '{');
}

/// Front unfolding of comma-separated boolean items.
pub proof fn lemma_bool_items_first(xs: Seq<BoolV>)
    requires
        xs.len() > 0,
    ensures
        ser_bool_items(xs) == ser_bool(xs[0]) + (if xs.len() == 1 {
            Seq::<char>::empty()
        } else {
            seq![','] + ser_bool_items(xs.skip(1))
        }),
    decreases xs.len(),
{
    reveal(ser_bool_items);
    reveal(ser_bool);
    if xs.len() == 1 {
        assert(ser_bool(xs[0]) + Seq::<char>::empty() =~= ser_bool(xs[0]));
    } else {
        let dl = xs.drop_last();
        lemma_bool_items_first(dl);
        assert(dl[0] == xs[0]);
        if xs.len() == 2 {
            assert(ser_bool(xs[0]) + Seq::<char>::empty() =~= ser_bool(xs[0]));
            assert(xs.skip(1).len() == 1);
            assert(xs.skip(1)[0] == xs[1]);
            assert(ser_bool_items(xs.skip(1)) == ser_bool(xs.skip(1)[0]));
            assert(xs.last() == xs[1]);
            assert((ser_bool(xs[0]) + seq![',']) + ser_bool(xs[1]) =~= ser_bool(xs[0]) + (seq![',']
                + ser_bool_items(xs.skip(1))));
        } else {
            assert(xs.skip(1).drop_last() =~= dl.skip(1));
            assert(xs.skip(1).len() >= 2);
            assert(xs.skip(1).last() == xs.last());
            assert(xs.skip(1)[0] == xs[1]);
            assert(ser_bool_items(xs.skip(1)) == (ser_bool_items(dl.skip(1)) + seq![','])
                + ser_bool(xs.last()));
            assert(((ser_bool(xs[0]) + (seq![','] + ser_bool_items(dl.skip(1)))) + seq![','])
                + ser_bool(xs.last()) =~= ser_bool(xs[0]) + (seq![','] + ((ser_bool_items(
                dl.skip(1),
            ) + seq![',']) + ser_bool(xs.last()))));
        }
    }
}

/// Front unfolding of comma-separated quoted strings.
pub proof fn lemma_string_items_first(vs: Seq<Seq<char>>)
    requires
        vs.len() > 0,
    ensures
        ser_string_items(vs) == quoted(vs[0]) + (if vs.len() == 1 {
            Seq::<char>::empty()
        } else {
            seq![','] + ser_string_items(vs.skip(1))
        }),
    decreases vs.len(),
{
    reveal(ser_string_items);
    if vs.len() == 1 {
        assert(quoted(vs[0]) + Seq::<char>::empty() =~= quoted(vs[0]));
    } else {
        let dl = vs.drop_last();
        lemma_string_items_first(dl);
        assert(dl[0] == vs[0]);
        if vs.len() == 2 {
            assert(quoted(vs[0]) + Seq::<char>::empty() =~= quoted(vs[0]));
            assert(vs.skip(1).len() == 1);
            assert(vs.skip(1)[0] == vs[1]);
            assert(ser_string_items(vs.skip(1)) == quoted(vs.skip(1)[0]));
            assert(vs.last() == vs[1]);
            assert((quoted(vs[0]) + seq![',']) + quoted(vs[1]) =~= quoted(vs[0]) + (seq![',']
                + ser_string_items(vs.skip(1))));
        } else {
            assert(vs.skip(1).drop_last() =~= dl.skip(1));
            assert(vs.skip(1).len() >= 2);
            assert(vs.skip(1).last() == vs.last());
            assert(ser_string_items(vs.skip(1)) == (ser_string_items(dl.skip(1)) + seq![','])
                + quoted(vs.last()));
            assert(((quoted(vs[0]) + (seq![','] + ser_string_items(dl.skip(1)))) + seq![','])
                + quoted(vs.last()) =~= quoted(vs[0]) + (seq![','] + ((ser_string_items(dl.skip(1))
                + seq![',']) + quoted(vs.last()))));
        }
    }
}

/// Front unfolding of comma-separated string-list items.
pub proof fn lemma_strlist_items_first(xs: Seq<StrListV>)
    requires
        xs.len() > 0,
    ensures
        ser_strlist_items(xs) == ser_strlist(xs[0]) + (if xs.len() == 1 {
            Seq::<char>::empty()
        } else {
            seq![','] + ser_strlist_items(xs.skip(1))
        }),
    decreases xs.len(),
{
    reveal(ser_strlist_items);
    if xs.len() == 1 {
        assert(ser_strlist(xs[0]) + Seq::<char>::empty() =~= ser_strlist(xs[0]));
    } else {
        let dl = xs.drop_last();
        lemma_strlist_items_first(dl);
        assert(dl[0] == xs[0]);
        if xs.len() == 2 {
            assert(ser_strlist(xs[0]) + Seq::<char>::empty() =~= ser_strlist(xs[0]));
            assert(xs.skip(1).len() == 1);
            assert(xs.skip(1)[0] == xs[1]);
            assert(ser_strlist_items(xs.skip(1)) == ser_strlist(xs.skip(1)[0]));
            assert(xs.last() == xs[1]);
            assert((ser_strlist(xs[0]) + seq![',']) + ser_strlist(xs[1]) =~= ser_strlist(xs[0]) + (
            seq![','] + ser_strlist_items(xs.skip(1))));
        } else {
            assert(xs.skip(1).drop_last() =~= dl.skip(1));
            assert(xs.skip(1).len() >= 2);
            assert(xs.skip(1).last() == xs.last());
            assert(ser_strlist_items(xs.skip(1)) == (ser_strlist_items(dl.skip(1)) + seq![','])
                + ser_strlist(xs.last()));
            assert(((ser_strlist(xs[0]) + (seq![','] + ser_strlist_items(dl.skip(1)))) + seq![','])
                + ser_strlist(xs.last()) =~= ser_strlist(xs[0]) + (seq![','] + ((ser_strlist_items(
                dl.skip(1),
            ) + seq![',']) + ser_strlist(xs.last()))));
        }
    }
}

/// Front unfolding of comma-separated features.
pub proof fn lemma_feature_items_first(fs: Seq<FeatureV>)
    requires
        fs.len() > 0,
    ensures
        ser_feature_items(fs) == ser_feature(fs[0]) + (if fs.len() == 1 {
            Seq::<char>::empty()
        } else {
            seq![','] + ser_feature_items(fs.skip(1))
        }),
    decreases fs.len(),
{
    reveal(ser_feature_items);
    if fs.len() == 1 {
        assert(ser_feature(fs[0]) + Seq::<char>::empty() =~= ser_feature(fs[0]));
    } else {
        let dl = fs.drop_last();
        lemma_feature_items_first(dl);
        assert(dl[0] == fs[0]);
        if fs.len() == 2 {
            assert(ser_feature(fs[0]) + Seq::<char>::empty() =~= ser_feature(fs[0]));
            assert(fs.skip(1).len() == 1);
            assert(fs.skip(1)[0] == fs[1]);
            assert(ser_feature_items(fs.skip(1)) == ser_feature(fs.skip(1)[0]));
            assert(fs.last() == fs[1]);
            assert((ser_feature(fs[0]) + seq![',']) + ser_feature(fs[1]) =~= ser_feature(fs[0]) + (
            seq![','] + ser_feature_items(fs.skip(1))));
        } else {
            assert(fs.skip(1).drop_last() =~= dl.skip(1));
            assert(fs.skip(1).len() >= 2);
            assert(fs.skip(1).last() == fs.last());
            assert(ser_feature_items(fs.skip(1)) == (ser_feature_items(dl.skip(1)) + seq![','])
                + ser_feature(fs.last()));
            assert(((ser_feature(fs[0]) + (seq![','] + ser_feature_items(dl.skip(1)))) + seq![','])
                + ser_feature(fs.last()) =~= ser_feature(fs[0]) + (seq![','] + ((ser_feature_items(
                dl.skip(1),
            ) + seq![',']) + ser_feature(fs.last()))));
        }
    }
}

/// A quoted string determines itself and its continuation.
proof fn lemma_quoted_pd(k1: Seq<char>, k2: Seq<char>, a: Seq<char>, b: Seq<char>)
    requires
        quoted(k1) + a == quoted(k2) + b,
    ensures
        k1 == k2,
        a == b,
{
    let s = quoted(k1) + a;
    assert(s.drop_first() =~= esc_str(k1) + seq!['"'] + a);
    assert((quoted(k2) + b).drop_first() =~= esc_str(k2) + seq!['"'] + b);
    lemma_scan_esc(k1, a);
    lemma_scan_esc(k2, b);
    assert(scan_jstr(s.drop_first()) == Some((k1, a)));
    assert(scan_jstr(s.drop_first()) == Some((k2, b)));
}

/// A tagged head determines its tag and its continuation.
proof fn lemma_tag_head_pd(t1: Seq<char>, t2: Seq<char>, a: Seq<char>, b: Seq<char>)
    requires
        tag_head(t1) + a == tag_head(t2) + b,
    ensures
        t1 == t2,
        a == b,
{
    assert((tag_head(t1) + a).drop_first() =~= quoted(t1) + (seq![':'] + a));
    assert((tag_head(t2) + b).drop_first() =~= quoted(t2) + (seq![':'] + b));
    lemma_quoted_pd(t1, t2, seq![':'] + a, seq![':'] + b);
    lemma_concat_cancel(seq![':'], a, b);
}

/// A numeric literal before a non-numeric character determines itself.
proof fn lemma_num_token_pd(t1: Seq<char>, t2: Seq<char>, a: Seq<char>, b: Seq<char>)
    requires
        num_lit(t1),
        num_lit(t2),
        a.len() > 0,
        b.len() > 0,
        !num_lit_char(a[0]),
        !num_lit_char(b[0]),
        t1 + a == t2 + b,
    ensures
        t1 == t2,
        a == b,
{
    let s = t1 + a;
    if t1.len() < t2.len() {
        assert(s[t1.len() as int] == a[0]);
        assert((t2 + b)[t1.len() as int] == t2[t1.len() as int]);
        assert(num_lit_char(t2[t1.len() as int]));
        assert(false);
    }
    if t2.len() < t1.len() {
        assert(s[t2.len() as int] == t1[t2.len() as int]);
        assert((t2 + b)[t2.len() as int] == b[0]);
        assert(num_lit_char(t1[t2.len() as int]));
        assert(false);
    }
    assert forall|i: int| 0 <= i < t1.len() implies t1[i] == t2[i] by {
        assert((t1 + a)[i] == t1[i]);
        assert((t2 + b)[i] == t2[i]);
    }
    assert(t1 =~= t2);
    lemma_concat_cancel(t1, a, b);
}

/// A serialized string array determines its strings and its continuation.
proof fn pd_string_items(vs1: Seq<Seq<char>>, vs2: Seq<Seq<char>>, a: Seq<char>, b: Seq<char>)
    requires
        ser_string_items(vs1) + a == ser_string_items(vs2) + b,
        a.len() > 0,
        b.len() > 0,
        a[0] == ']',
        b[0] == ']',
    ensures
        vs1 == vs2,
        a == b,
    decreases vs1.len(),
{
    reveal(ser_string_items);
    let s = ser_string_items(vs1) + a;
    if vs1.len() == 0 && vs2.len() == 0 {
        assert(Seq::<char>::empty() + a =~= a);
        assert(Seq::<char>::empty() + b =~= b);
        assert(vs1 =~= vs2);
    } else if vs1.len() == 0 {
        lemma_string_items_first(vs2);
        assert(Seq::<char>::empty() + a =~= a);
        assert(s[0] == ']');
        assert(quoted(vs2[0])[0] == '"');
        assert(quoted(vs2[0]).len() >= 2);
        assert(ser_string_items(vs2)[0] == '"');
        assert(s[0] == '"');
        assert(false);
    } else if vs2.len() == 0 {
        lemma_string_items_first(vs1);
        assert(Seq::<char>::empty() + b =~= b);
        assert(s[0] == b[0]);
        assert(quoted(vs1[0])[0] == '"');
        assert(quoted(vs1[0]).len() >= 2);
        assert(ser_string_items(vs1)[0] == '"');
        assert(s[0] == '"');
        assert(false);
    } else {
        lemma_string_items_first(vs1);
        lemma_string_items_first(vs2);
        let ghost aa = if vs1.len() == 1 {
            a
        } else {
            seq![','] + (ser_string_items(vs1.skip(1)) + a)
        };
        let ghost bb = if vs2.len() == 1 {
            b
        } else {
            seq![','] + (ser_string_items(vs2.skip(1)) + b)
        };
        if vs1.len() == 1 {
            assert(s =~= quoted(vs1[0]) + aa);
        } else {
            assert(s =~= quoted(vs1[0]) + aa);
        }
        if vs2.len() == 1 {
            assert(ser_string_items(vs2) + b =~= quoted(vs2[0]) + bb);
        } else {
            assert(ser_string_items(vs2) + b =~= quoted(vs2[0]) + bb);
        }
        lemma_quoted_pd(vs1[0], vs2[0], aa, bb);
        if vs1.len() == 1 && vs2.len() == 1 {
            assert(vs1 =~= vs2);
        } else if vs1.len() == 1 {
            assert(aa[0] == ']');
            assert(bb[0] == ',');
            assert(false);
        } else if vs2.len() == 1 {
            assert(aa[0] == ',');
            assert(bb[0] == ']');
            assert(false);
        } else {
            lemma_concat_cancel(
                seq![','],
                ser_string_items(vs1.skip(1)) + a,
                ser_string_items(vs2.skip(1)) + b,
            );
            pd_string_items(vs1.skip(1), vs2.skip(1), a, b);
            assert(vs1.len() == vs2.len());
            assert forall|i: int| 0 <= i < vs1.len() implies vs1[i] == vs2[i] by {
                if i > 0 {
                    assert(vs1.skip(1)[i - 1] == vs2.skip(1)[i - 1]);
                }
            }
            assert(vs1 =~= vs2);
        }
    }
}

/// A serialized string expression determines itself and its continuation.
#[verifier::rlimit(100)]
proof fn pd_str(x1: StrV, x2: StrV, a: Seq<char>, b: Seq<char>)
    requires
        ser_str(x1) + a == ser_str(x2) + b,
    ensures
        x1 == x2,
        a == b,
    decreases ser_str(x1).len(), 0int,
{
    lemma_str_shape(x1);
    lemma_str_shape(x2);
    lemma_tag_lits();
    let s = ser_str(x1) + a;
    assert(s[0] == ser_str(x1)[0]);
    assert(s[0] == ser_str(x2)[0]);
    if str_tagged(x1) != str_tagged(x2) {
        assert(false);
    } else if !str_tagged(x1) {
        lemma_quoted_pd(str_tag(x1), str_tag(x2), a, b);
        assert(x1 == x2);
    } else {
        let t1 = str_tag(x1);
        let t2 = str_tag(x2);
        lemma_begins_of_concat(ser_str(x1), a);
        lemma_begins_of_concat(ser_str(x2), b);
        lemma_begins_trans(s, ser_str(x1), tag_head(t1));
        lemma_begins_trans(s, ser_str(x2), tag_head(t2));
        lemma_begins_decompose(s, tag_head(t1));
        lemma_begins_decompose(s, tag_head(t2));
        lemma_tag_head_pd(
            t1,
            t2,
            s.skip(tag_head(t1).len() as int),
            s.skip(tag_head(t2).len() as int),
        );
        match x1 {
            StrV::Constant(s1) => match x2 {
                StrV::Constant(s2) => {
                    assert(s =~= tag_head("constant"@) + (quoted(s1) + (seq!['}'] + a)));
                    assert(s =~= tag_head("constant"@) + (quoted(s2) + (seq!['}'] + b)));
                    lemma_concat_cancel(
                        tag_head("constant"@),
                        quoted(s1) + (seq!['}'] + a),
                        quoted(s2) + (seq!['}'] + b),
                    );
                    lemma_quoted_pd(s1, s2, seq!['}'] + a, seq!['}'] + b);
                    lemma_concat_cancel(seq!['}'], a, b);
                },
                _ => {
                    assert(false);
                },
            },
            StrV::Attribute(k1) => match x2 {
                StrV::Attribute(k2) => {
                    assert(s =~= tag_head("attribute"@) + (quoted(k1) + (seq!['}'] + a)));
                    assert(s =~= tag_head("attribute"@) + (quoted(k2) + (seq!['}'] + b)));
                    lemma_concat_cancel(
                        tag_head("attribute"@),
                        quoted(k1) + (seq!['}'] + a),
                        quoted(k2) + (seq!['}'] + b),
                    );
                    lemma_quoted_pd(k1, k2, seq!['}'] + a, seq!['}'] + b);
                    lemma_concat_cancel(seq!['}'], a, b);
                },
                _ => {
                    assert(false);
                },
            },
            StrV::Cookie(n1) => match x2 {
                StrV::Cookie(n2) => {
                    assert(s =~= tag_head("cookie"@) + (quoted(n1) + (seq!['}'] + a)));
                    assert(s =~= tag_head("cookie"@) + (quoted(n2) + (seq!['}'] + b)));
                    lemma_concat_cancel(
                        tag_head("cookie"@),
                        quoted(n1) + (seq!['}'] + a),
                        quoted(n2) + (seq!['}'] + b),
                    );
                    lemma_quoted_pd(n1, n2, seq!['}'] + a, seq!['}'] + b);
                    lemma_concat_cancel(seq!['}'], a, b);
                },
                _ => {
                    assert(false);
                },
            },
            StrV::Base64(v1) => match x2 {
                StrV::Base64(v2) => {
                    assert(s =~= tag_head("base64"@) + (ser_str(*v1) + (seq!['}'] + a)));
                    assert(s =~= tag_head("base64"@) + (ser_str(*v2) + (seq!['}'] + b)));
                    lemma_concat_cancel(
                        tag_head("base64"@),
                        ser_str(*v1) + (seq!['}'] + a),
                        ser_str(*v2) + (seq!['}'] + b),
                    );
                    pd_str(*v1, *v2, seq!['}'] + a, seq!['}'] + b);
                    lemma_concat_cancel(seq!['}'], a, b);
                },
                _ => {
                    assert(false);
                },
            },
            StrV::Extract { regex: r1, value: v1 } => match x2 {
                StrV::Extract { regex: r2, value: v2 } => {
                    assert(s =~= tag_head("extract"@) + ("{\"regex\":"@ + (quoted(r1) + (
                    ",\"value\":"@ + (ser_str(*v1) + (seq!['}', '}'] + a))))));
                    assert(s =~= tag_head("extract"@) + ("{\"regex\":"@ + (quoted(r2) + (
                    ",\"value\":"@ + (ser_str(*v2) + (seq!['}', '}'] + b))))));
                    lemma_concat_cancel(
                        tag_head("extract"@),
                        "{\"regex\":"@ + (quoted(r1) + (",\"value\":"@ + (ser_str(*v1) + (seq![
                            '}',
                            '}',
                        ] + a)))),
                        "{\"regex\":"@ + (quoted(r2) + (",\"value\":"@ + (ser_str(*v2) + (seq![
                            '}',
                            '}',
                        ] + b)))),
                    );
                    lemma_concat_cancel(
                        "{\"regex\":"@,
                        quoted(r1) + (",\"value\":"@ + (ser_str(*v1) + (seq!['}', '}'] + a))),
                        quoted(r2) + (",\"value\":"@ + (ser_str(*v2) + (seq!['}', '}'] + b))),
                    );
                    lemma_quoted_pd(
                        r1,
                        r2,
                        ",\"value\":"@ + (ser_str(*v1) + (seq!['}', '}'] + a)),
                        ",\"value\":"@ + (ser_str(*v2) + (seq!['}', '}'] + b)),
                    );
                    lemma_concat_cancel(
                        ",\"value\":"@,
                        ser_str(*v1) + (seq!['}', '}'] + a),
                        ser_str(*v2) + (seq!['}', '}'] + b),
                    );
                    pd_str(*v1, *v2, seq!['}', '}'] + a, seq!['}', '}'] + b);
                    lemma_concat_cancel(seq!['}', '}'], a, b);
                },
                _ => {
                    assert(false);
                },
            },
            StrV::JsonPointer { pointer: p1, value: v1 } => match x2 {
                StrV::JsonPointer { pointer: p2, value: v2 } => {
                    assert(s =~= tag_head("json_pointer"@) + ("{\"pointer\":"@ + (quoted(p1) + (
                    ",\"value\":"@ + (ser_str(*v1) + (seq!['}', '}'] + a))))));
                    assert(s =~= tag_head("json_pointer"@) + ("{\"pointer\":"@ + (quoted(p2) + (
                    ",\"value\":"@ + (ser_str(*v2) + (seq!['}', '}'] + b))))));
                    lemma_concat_cancel(
                        tag_head("json_pointer"@),
                        "{\"pointer\":"@ + (quoted(p1) + (",\"value\":"@ + (ser_str(*v1) + (seq![
                            '}',
                            '}',
                        ] + a)))),
                        "{\"pointer\":"@ + (quoted(p2) + (",\"value\":"@ + (ser_str(*v2) + (seq![
                            '}',
                            '}',
                        ] + b)))),
                    );
                    lemma_concat_cancel(
                        "{\"pointer\":"@,
                        quoted(p1) + (",\"value\":"@ + (ser_str(*v1) + (seq!['}', '}'] + a))),
                        quoted(p2) + (",\"value\":"@ + (ser_str(*v2) + (seq!['}', '}'] + b))),
                    );
                    lemma_quoted_pd(
                        p1,
                        p2,
                        ",\"value\":"@ + (ser_str(*v1) + (seq!['}', '}'] + a)),
                        ",\"value\":"@ + (ser_str(*v2) + (seq!['}', '}'] + b)),
                    );
                    lemma_concat_cancel(
                        ",\"value\":"@,
                        ser_str(*v1) + (seq!['}', '}'] + a),
                        ser_str(*v2) + (seq!['}', '}'] + b),
                    );
                    pd_str(*v1, *v2, seq!['}', '}'] + a, seq!['}', '}'] + b);
                    lemma_concat_cancel(seq!['}', '}'], a, b);
                },
                _ => {
                    assert(false);
                },
            },
            StrV::First(l1) => match x2 {
                StrV::First(l2) => {
                    assert(s =~= tag_head("first"@) + (ser_strlist(*l1) + (seq!['}'] + a)));
                    assert(s =~= tag_head("first"@) + (ser_strlist(*l2) + (seq!['}'] + b)));
                    lemma_concat_cancel(
                        tag_head("first"@),
                        ser_strlist(*l1) + (seq!['}'] + a),
                        ser_strlist(*l2) + (seq!['}'] + b),
                    );
                    pd_strlist(*l1, *l2, seq!['}'] + a, seq!['}'] + b);
                    lemma_concat_cancel(seq!['}'], a, b);
                },
                _ => {
                    assert(false);
                },
            },
            StrV::Last(l1) => match x2 {
                StrV::Last(l2) => {
                    assert(s =~= tag_head("last"@) + (ser_strlist(*l1) + (seq!['}'] + a)));
                    assert(s =~= tag_head("last"@) + (ser_strlist(*l2) + (seq!['}'] + b)));
                    lemma_concat_cancel(
                        tag_head("last"@),
                        ser_strlist(*l1) + (seq!['}'] + a),
                        ser_strlist(*l2) + (seq!['}'] + b),
                    );
                    pd_strlist(*l1, *l2, seq!['}'] + a, seq!['}'] + b);
                    lemma_concat_cancel(seq!['}'], a, b);
                },
                _ => {
                    assert(false);
                },
            },
            _ => {
                assert(false);
            },
        }
    }
}

/// A serialized string-list expression determines itself and its
/// continuation.
#[verifier::rlimit(100)]
proof fn pd_strlist(x1: StrListV, x2: StrListV, a: Seq<char>, b: Seq<char>)
    requires
        ser_strlist(x1) + a == ser_strlist(x2) + b,
    ensures
        x1 == x2,
        a == b,
    decreases ser_strlist(x1).len(), 0int,
{
    lemma_strlist_shape(x1);
    lemma_strlist_shape(x2);
    lemma_tag_lits();
    let s = ser_strlist(x1) + a;
    let t1 = strlist_tag(x1);
    let t2 = strlist_tag(x2);
    lemma_begins_of_concat(ser_strlist(x1), a);
    lemma_begins_of_concat(ser_strlist(x2), b);
    lemma_begins_trans(s, ser_strlist(x1), tag_head(t1));
    lemma_begins_trans(s, ser_strlist(x2), tag_head(t2));
    lemma_begins_decompose(s, tag_head(t1));
    lemma_begins_decompose(s, tag_head(t2));
    lemma_tag_head_pd(
        t1,
        t2,
        s.skip(tag_head(t1).len() as int),
        s.skip(tag_head(t2).len() as int),
    );
    match x1 {
        StrListV::Constant(vs1) => match x2 {
            StrListV::Constant(vs2) => {
                assert(s =~= tag_head("constant"@) + (seq!['['] + (ser_string_items(vs1) + (seq![
                    ']',
                    '}',
                ] + a))));
                assert(s =~= tag_head("constant"@) + (seq!['['] + (ser_string_items(vs2) + (seq![
                    ']',
                    '}',
                ] + b))));
                lemma_concat_cancel(
                    tag_head("constant"@),
                    seq!['['] + (ser_string_items(vs1) + (seq![']', '}'] + a)),
                    seq!['['] + (ser_string_items(vs2) + (seq![']', '}'] + b)),
                );
                lemma_concat_cancel(
                    seq!['['],
                    ser_string_items(vs1) + (seq![']', '}'] + a),
                    ser_string_items(vs2) + (seq![']', '}'] + b),
                );
                pd_string_items(vs1, vs2, seq![']', '}'] + a, seq![']', '}'] + b);
                lemma_concat_cancel(seq![']', '}'], a, b);
            },
            _ => {
                assert(false);
            },
        },
        StrListV::Split { separator: s1, value: v1 } => match x2 {
            StrListV::Split { separator: s2, value: v2 } => {
                assert(s =~= tag_head("split"@) + ("{\"separator\":"@ + (quoted(s1) + (
                ",\"value\":"@ + (ser_str(*v1) + (seq!['}', '}'] + a))))));
                assert(s =~= tag_head("split"@) + ("{\"separator\":"@ + (quoted(s2) + (
                ",\"value\":"@ + (ser_str(*v2) + (seq!['}', '}'] + b))))));
                lemma_concat_cancel(
                    tag_head("split"@),
                    "{\"separator\":"@ + (quoted(s1) + (",\"value\":"@ + (ser_str(*v1) + (seq![
                        '}',
                        '}',
                    ] + a)))),
                    "{\"separator\":"@ + (quoted(s2) + (",\"value\":"@ + (ser_str(*v2) + (seq![
                        '}',
                        '}',
                    ] + b)))),
                );
                lemma_concat_cancel(
                    "{\"separator\":"@,
                    quoted(s1) + (",\"value\":"@ + (ser_str(*v1) + (seq!['}', '}'] + a))),
                    quoted(s2) + (",\"value\":"@ + (ser_str(*v2) + (seq!['}', '}'] + b))),
                );
                lemma_quoted_pd(
                    s1,
                    s2,
                    ",\"value\":"@ + (ser_str(*v1) + (seq!['}', '}'] + a)),
                    ",\"value\":"@ + (ser_str(*v2) + (seq!['}', '}'] + b)),
                );
                lemma_concat_cancel(
                    ",\"value\":"@,
                    ser_str(*v1) + (seq!['}', '}'] + a),
                    ser_str(*v2) + (seq!['}', '}'] + b),
                );
                pd_str(*v1, *v2, seq!['}', '}'] + a, seq!['}', '}'] + b);
                lemma_concat_cancel(seq!['}', '}'], a, b);
            },
            _ => {
                assert(false);
            },
        },
        StrListV::Extract { regex: r1, value: v1 } => match x2 {
            StrListV::Extract { regex: r2, value: v2 } => {
                assert(s =~= tag_head("extract"@) + ("{\"regex\":"@ + (quoted(r1) + (",\"value\":"@
                    + (ser_str(*v1) + (seq!['}', '}'] + a))))));
                assert(s =~= tag_head("extract"@) + ("{\"regex\":"@ + (quoted(r2) + (",\"value\":"@
                    + (ser_str(*v2) + (seq!['}', '}'] + b))))));
                lemma_concat_cancel(
                    tag_head("extract"@),
                    "{\"regex\":"@ + (quoted(r1) + (",\"value\":"@ + (ser_str(*v1) + (seq![
                        '}',
                        '}',
                    ] + a)))),
                    "{\"regex\":"@ + (quoted(r2) + (",\"value\":"@ + (ser_str(*v2) + (seq![
                        '}',
                        '}',
                    ] + b)))),
                );
                lemma_concat_cancel(
                    "{\"regex\":"@,
                    quoted(r1) + (",\"value\":"@ + (ser_str(*v1) + (seq!['}', '}'] + a))),
                    quoted(r2) + (",\"value\":"@ + (ser_str(*v2) + (seq!['}', '}'] + b))),
                );
                lemma_quoted_pd(
                    r1,
                    r2,
                    ",\"value\":"@ + (ser_str(*v1) + (seq!['}', '}'] + a)),
                    ",\"value\":"@ + (ser_str(*v2) + (seq!['}', '}'] + b)),
                );
                lemma_concat_cancel(
                    ",\"value\":"@,
                    ser_str(*v1) + (seq!['}', '}'] + a),
                    ser_str(*v2) + (seq!['}', '}'] + b),
                );
                pd_str(*v1, *v2, seq!['}', '}'] + a, seq!['}', '}'] + b);
                lemma_concat_cancel(seq!['}', '}'], a, b);
            },
            _ => {
                assert(false);
            },
        },
        StrListV::HttpQualityValue(v1) => match x2 {
            StrListV::HttpQualityValue(v2) => {
                assert(s =~= tag_head("http_quality_value"@) + (ser_str(*v1) + (seq!['}'] + a)));
                assert(s =~= tag_head("http_quality_value"@) + (ser_str(*v2) + (seq!['}'] + b)));
                lemma_concat_cancel(
                    tag_head("http_quality_value"@),
                    ser_str(*v1) + (seq!['}'] + a),
                    ser_str(*v2) + (seq!['}'] + b),
                );
                pd_str(*v1, *v2, seq!['}'] + a, seq!['}'] + b);
                lemma_concat_cancel(seq!['}'], a, b);
            },
            _ => {
                assert(false);
            },
        },
    }
}

/// A serialized number expression determines itself and its continuation.
#[verifier::rlimit(100)]
proof fn pd_num(x1: NumV, x2: NumV, a: Seq<char>, b: Seq<char>)
    requires
        wf_num(x1),
        wf_num(x2),
        ser_num(x1) + a == ser_num(x2) + b,
    ensures
        x1 == x2,
        a == b,
{
    lemma_num_shape(x1);
    lemma_num_shape(x2);
    lemma_tag_lits();
    let s = ser_num(x1) + a;
    let t1 = num_tag(x1);
    let t2 = num_tag(x2);
    lemma_begins_of_concat(ser_num(x1), a);
    lemma_begins_of_concat(ser_num(x2), b);
    lemma_begins_trans(s, ser_num(x1), tag_head(t1));
    lemma_begins_trans(s, ser_num(x2), tag_head(t2));
    lemma_begins_decompose(s, tag_head(t1));
    lemma_begins_decompose(s, tag_head(t2));
    lemma_tag_head_pd(
        t1,
        t2,
        s.skip(tag_head(t1).len() as int),
        s.skip(tag_head(t2).len() as int),
    );
    match x1 {
        NumV::Constant(t1c) => match x2 {
            NumV::Constant(t2c) => {
                assert(s =~= tag_head("constant"@) + (t1c + (seq!['}'] + a)));
                assert(s =~= tag_head("constant"@) + (t2c + (seq!['}'] + b)));
                lemma_concat_cancel(
                    tag_head("constant"@),
                    t1c + (seq!['}'] + a),
                    t2c + (seq!['}'] + b),
                );
                assert((seq!['}'] + a)[0] == '}');
                assert((seq!['}'] + b)[0] == '}');
                lemma_num_token_pd(t1c, t2c, seq!['}'] + a, seq!['}'] + b);
                lemma_concat_cancel(seq!['}'], a, b);
            },
            _ => {
                assert(false);
            },
        },
        NumV::Attribute(k1) => match x2 {
            NumV::Attribute(k2) => {
                assert(s =~= tag_head("attribute"@) + (quoted(k1) + (seq!['}'] + a)));
                assert(s =~= tag_head("attribute"@) + (quoted(k2) + (seq!['}'] + b)));
                lemma_concat_cancel(
                    tag_head("attribute"@),
                    quoted(k1) + (seq!['}'] + a),
                    quoted(k2) + (seq!['}'] + b),
                );
                lemma_quoted_pd(k1, k2, seq!['}'] + a, seq!['}'] + b);
                lemma_concat_cancel(seq!['}'], a, b);
            },
            _ => {
                assert(false);
            },
        },
        NumV::Rank(v1) => match x2 {
            NumV::Rank(v2) => {
                assert(s =~= tag_head("rank"@) + (ser_str(*v1) + (seq!['}'] + a)));
                assert(s =~= tag_head("rank"@) + (ser_str(*v2) + (seq!['}'] + b)));
                lemma_concat_cancel(
                    tag_head("rank"@),
                    ser_str(*v1) + (seq!['}'] + a),
                    ser_str(*v2) + (seq!['}'] + b),
                );
                pd_str(*v1, *v2, seq!['}'] + a, seq!['}'] + b);
                lemma_concat_cancel(seq!['}'], a, b);
            },
            _ => {
                assert(false);
            },
        },
        NumV::JsonPointer { pointer: p1, value: v1 } => match x2 {
            NumV::JsonPointer { pointer: p2, value: v2 } => {
                assert(s =~= tag_head("json_pointer"@) + ("{\"pointer\":"@ + (quoted(p1) + (
                ",\"value\":"@ + (ser_str(*v1) + (seq!['}', '}'] + a))))));
                assert(s =~= tag_head("json_pointer"@) + ("{\"pointer\":"@ + (quoted(p2) + (
                ",\"value\":"@ + (ser_str(*v2) + (seq!['}', '}'] + b))))));
                lemma_concat_cancel(
                    tag_head("json_pointer"@),
                    "{\"pointer\":"@ + (quoted(p1) + (",\"value\":"@ + (ser_str(*v1) + (seq![
                        '}',
                        '}',
                    ] + a)))),
                    "{\"pointer\":"@ + (quoted(p2) + (",\"value\":"@ + (ser_str(*v2) + (seq![
                        '}',
                        '}',
                    ] + b)))),
                );
                lemma_concat_cancel(
                    "{\"pointer\":"@,
                    quoted(p1) + (",\"value\":"@ + (ser_str(*v1) + (seq!['}', '}'] + a))),
                    quoted(p2) + (",\"value\":"@ + (ser_str(*v2) + (seq!['}', '}'] + b))),
                );
                lemma_quoted_pd(
                    p1,
                    p2,
                    ",\"value\":"@ + (ser_str(*v1) + (seq!['}', '}'] + a)),
                    ",\"value\":"@ + (ser_str(*v2) + (seq!['}', '}'] + b)),
                );
                lemma_concat_cancel(
                    ",\"value\":"@,
                    ser_str(*v1) + (seq!['}', '}'] + a),
                    ser_str(*v2) + (seq!['}', '}'] + b),
                );
                pd_str(*v1, *v2, seq!['}', '}'] + a, seq!['}', '}'] + b);
                lemma_concat_cancel(seq!['}', '}'], a, b);
            },
            _ => {
                assert(false);
            },
        },
    }
}

/// Payload determinacy for a comparison of two numbers.
proof fn pd_numcmp(
    th: Seq<char>,
    a1: NumV,
    c1: NumV,
    a2: NumV,
    c2: NumV,
    s: Seq<char>,
    ra: Seq<char>,
    rb: Seq<char>,
)
    requires
        wf_num(a1),
        wf_num(c1),
        wf_num(a2),
        wf_num(c2),
        s == (th + (seq!['['] + (ser_num(a1) + (seq![','] + (ser_num(c1) + seq![']', '}'])))))
            + ra,
        s == (th + (seq!['['] + (ser_num(a2) + (seq![','] + (ser_num(c2) + seq![']', '}'])))))
            + rb,
    ensures
        a1 == a2,
        c1 == c2,
        ra == rb,
{
    assert(s =~= th + (seq!['['] + (ser_num(a1) + (seq![','] + (ser_num(c1) + (seq![']', '}']
        + ra))))));
    assert(s =~= th + (seq!['['] + (ser_num(a2) + (seq![','] + (ser_num(c2) + (seq![']', '}']
        + rb))))));
    lemma_concat_cancel(
        th,
        seq!['['] + (ser_num(a1) + (seq![','] + (ser_num(c1) + (seq![']', '}'] + ra)))),
        seq!['['] + (ser_num(a2) + (seq![','] + (ser_num(c2) + (seq![']', '}'] + rb)))),
    );
    lemma_concat_cancel(
        seq!['['],
        ser_num(a1) + (seq![','] + (ser_num(c1) + (seq![']', '}'] + ra))),
        ser_num(a2) + (seq![','] + (ser_num(c2) + (seq![']', '}'] + rb))),
    );
    pd_num(
        a1,
        a2,
        seq![','] + (ser_num(c1) + (seq![']', '}'] + ra)),
        seq![','] + (ser_num(c2) + (seq![']', '}'] + rb)),
    );
    lemma_concat_cancel(
        seq![','],
        ser_num(c1) + (seq![']', '}'] + ra),
        ser_num(c2) + (seq![']', '}'] + rb),
    );
    pd_num(c1, c2, seq![']', '}'] + ra, seq![']', '}'] + rb);
    lemma_concat_cancel(seq![']', '}'], ra, rb);
}

/// Payload determinacy for a comparison of two strings.
proof fn pd_streq(
    th: Seq<char>,
    a1: StrV,
    c1: StrV,
    a2: StrV,
    c2: StrV,
    s: Seq<char>,
    ra: Seq<char>,
    rb: Seq<char>,
)
    requires
        s == (th + (seq!['['] + (ser_str(a1) + (seq![','] + (ser_str(c1) + seq![']', '}'])))))
            + ra,
        s == (th + (seq!['['] + (ser_str(a2) + (seq![','] + (ser_str(c2) + seq![']', '}'])))))
            + rb,
    ensures
        a1 == a2,
        c1 == c2,
        ra == rb,
{
    assert(s =~= th + (seq!['['] + (ser_str(a1) + (seq![','] + (ser_str(c1) + (seq![']', '}']
        + ra))))));
    assert(s =~= th + (seq!['['] + (ser_str(a2) + (seq![','] + (ser_str(c2) + (seq![']', '}']
        + rb))))));
    lemma_concat_cancel(
        th,
        seq!['['] + (ser_str(a1) + (seq![','] + (ser_str(c1) + (seq![']', '}'] + ra)))),
        seq!['['] + (ser_str(a2) + (seq![','] + (ser_str(c2) + (seq![']', '}'] + rb)))),
    );
    lemma_concat_cancel(
        seq!['['],
        ser_str(a1) + (seq![','] + (ser_str(c1) + (seq![']', '}'] + ra))),
        ser_str(a2) + (seq![','] + (ser_str(c2) + (seq![']', '}'] + rb))),
    );
    pd_str(
        a1,
        a2,
        seq![','] + (ser_str(c1) + (seq![']', '}'] + ra)),
        seq![','] + (ser_str(c2) + (seq![']', '}'] + rb)),
    );
    lemma_concat_cancel(
        seq![','],
        ser_str(c1) + (seq![']', '}'] + ra),
        ser_str(c2) + (seq![']', '}'] + rb),
    );
    pd_str(c1, c2, seq![']', '}'] + ra, seq![']', '}'] + rb);
    lemma_concat_cancel(seq![']', '}'], ra, rb);
}

/// Payload determinacy for a regular expression and a string value.
proof fn pd_matches_payload(
    th: Seq<char>,
    r1: Seq<char>,
    v1: StrV,
    r2: Seq<char>,
    v2: StrV,
    s: Seq<char>,
    ra: Seq<char>,
    rb: Seq<char>,
)
    requires
        s == (th + (seq!['['] + (quoted(r1) + (seq![','] + (ser_str(v1) + seq![']', '}'])))))
            + ra,
        s == (th + (seq!['['] + (quoted(r2) + (seq![','] + (ser_str(v2) + seq![']', '}'])))))
            + rb,
    ensures
        r1 == r2,
        v1 == v2,
        ra == rb,
{
    assert(s =~= th + (seq!['['] + (quoted(r1) + (seq![','] + (ser_str(v1) + (seq![']', '}']
        + ra))))));
    assert(s =~= th + (seq!['['] + (quoted(r2) + (seq![','] + (ser_str(v2) + (seq![']', '}']
        + rb))))));
    lemma_concat_cancel(
        th,
        seq!['['] + (quoted(r1) + (seq![','] + (ser_str(v1) + (seq![']', '}'] + ra)))),
        seq!['['] + (quoted(r2) + (seq![','] + (ser_str(v2) + (seq![']', '}'] + rb)))),
    );
    lemma_concat_cancel(
        seq!['['],
        quoted(r1) + (seq![','] + (ser_str(v1) + (seq![']', '}'] + ra))),
        quoted(r2) + (seq![','] + (ser_str(v2) + (seq![']', '}'] + rb))),
    );
    lemma_quoted_pd(
        r1,
        r2,
        seq![','] + (ser_str(v1) + (seq![']', '}'] + ra)),
        seq![','] + (ser_str(v2) + (seq![']', '}'] + rb)),
    );
    lemma_concat_cancel(
        seq![','],
        ser_str(v1) + (seq![']', '}'] + ra),
        ser_str(v2) + (seq![']', '}'] + rb),
    );
    pd_str(v1, v2, seq![']', '}'] + ra, seq![']', '}'] + rb);
    lemma_concat_cancel(seq![']', '}'], ra, rb);
}

/// Payload determinacy for a quoted key field and a string value.
proof fn pd_keyed_quoted(
    th: Seq<char>,
    key: Seq<char>,
    q1: Seq<char>,
    v1: StrV,
    q2: Seq<char>,
    v2: StrV,
    s: Seq<char>,
    ra: Seq<char>,
    rb: Seq<char>,
)
    requires
        s == (th + (key + (quoted(q1) + (",\"value\":"@ + (ser_str(v1) + seq!['}', '}'])))))
            + ra,
        s == (th + (key + (quoted(q2) + (",\"value\":"@ + (ser_str(v2) + seq!['}', '}'])))))
            + rb,
    ensures
        q1 == q2,
        v1 == v2,
        ra == rb,
{
    assert(s =~= th + (key + (quoted(q1) + (",\"value\":"@ + (ser_str(v1) + (seq!['}', '}']
        + ra))))));
    assert(s =~= th + (key + (quoted(q2) + (",\"value\":"@ + (ser_str(v2) + (seq!['}', '}']
        + rb))))));
    lemma_concat_cancel(
        th,
        key + (quoted(q1) + (",\"value\":"@ + (ser_str(v1) + (seq!['}', '}'] + ra)))),
        key + (quoted(q2) + (",\"value\":"@ + (ser_str(v2) + (seq!['}', '}'] + rb)))),
    );
    lemma_concat_cancel(
        key,
        quoted(q1) + (",\"value\":"@ + (ser_str(v1) + (seq!['}', '}'] + ra))),
        quoted(q2) + (",\"value\":"@ + (ser_str(v2) + (seq!['}', '}'] + rb))),
    );
    lemma_quoted_pd(
        q1,
        q2,
        ",\"value\":"@ + (ser_str(v1) + (seq!['}', '}'] + ra)),
        ",\"value\":"@ + (ser_str(v2) + (seq!['}', '}'] + rb)),
    );
    lemma_concat_cancel(
        ",\"value\":"@,
        ser_str(v1) + (seq!['}', '}'] + ra),
        ser_str(v2) + (seq!['}', '}'] + rb),
    );
    pd_str(v1, v2, seq!['}', '}'] + ra, seq!['}', '}'] + rb);
    lemma_concat_cancel(seq!['}', '}'], ra, rb);
}

/// Payload determinacy for a list field and a string value.
proof fn pd_in_payload(
    th: Seq<char>,
    l1: StrListV,
    v1: StrV,
    l2: StrListV,
    v2: StrV,
    s: Seq<char>,
    ra: Seq<char>,
    rb: Seq<char>,
)
    requires
        s == (th + ("{\"list\":"@ + (ser_strlist(l1) + (",\"value\":"@ + (ser_str(v1) + seq![
            '}',
            '}',
        ]))))) + ra,
        s == (th + ("{\"list\":"@ + (ser_strlist(l2) + (",\"value\":"@ + (ser_str(v2) + seq![
            '}',
            '}',
        ]))))) + rb,
    ensures
        l1 == l2,
        v1 == v2,
        ra == rb,
{
    assert(s =~= th + ("{\"list\":"@ + (ser_strlist(l1) + (",\"value\":"@ + (ser_str(v1) + (
    seq!['}', '}'] + ra))))));
    assert(s =~= th + ("{\"list\":"@ + (ser_strlist(l2) + (",\"value\":"@ + (ser_str(v2) + (
    seq!['}', '}'] + rb))))));
    lemma_concat_cancel(
        th,
        "{\"list\":"@ + (ser_strlist(l1) + (",\"value\":"@ + (ser_str(v1) + (seq!['}', '}']
            + ra)))),
        "{\"list\":"@ + (ser_strlist(l2) + (",\"value\":"@ + (ser_str(v2) + (seq!['}', '}']
            + rb)))),
    );
    lemma_concat_cancel(
        "{\"list\":"@,
        ser_strlist(l1) + (",\"value\":"@ + (ser_str(v1) + (seq!['}', '}'] + ra))),
        ser_strlist(l2) + (",\"value\":"@ + (ser_str(v2) + (seq!['}', '}'] + rb))),
    );
    pd_strlist(
        l1,
        l2,
        ",\"value\":"@ + (ser_str(v1) + (seq!['}', '}'] + ra)),
        ",\"value\":"@ + (ser_str(v2) + (seq!['}', '}'] + rb)),
    );
    lemma_concat_cancel(
        ",\"value\":"@,
        ser_str(v1) + (seq!['}', '}'] + ra),
        ser_str(v2) + (seq!['}', '}'] + rb),
    );
    pd_str(v1, v2, seq!['}', '}'] + ra, seq!['}', '}'] + rb);
    lemma_concat_cancel(seq!['}', '}'], ra, rb);
}

/// Payload determinacy for a list field and a list of values.
proof fn pd_anyall_payload(
    th: Seq<char>,
    l1: StrListV,
    w1: StrListV,
    l2: StrListV,
    w2: StrListV,
    s: Seq<char>,
    ra: Seq<char>,
    rb: Seq<char>,
)
    requires
        s == (th + ("{\"list\":"@ + (ser_strlist(l1) + (",\"values\":"@ + (ser_strlist(w1)
            + seq!['}', '}']))))) + ra,
        s == (th + ("{\"list\":"@ + (ser_strlist(l2) + (",\"values\":"@ + (ser_strlist(w2)
            + seq!['}', '}']))))) + rb,
    ensures
        l1 == l2,
        w1 == w2,
        ra == rb,
{
    assert(s =~= th + ("{\"list\":"@ + (ser_strlist(l1) + (",\"values\":"@ + (ser_strlist(w1)
        + (seq!['}', '}'] + ra))))));
    assert(s =~= th + ("{\"list\":"@ + (ser_strlist(l2) + (",\"values\":"@ + (ser_strlist(w2)
        + (seq!['}', '}'] + rb))))));
    lemma_concat_cancel(
        th,
        "{\"list\":"@ + (ser_strlist(l1) + (",\"values\":"@ + (ser_strlist(w1) + (seq![
            '}',
            '}',
        ] + ra)))),
        "{\"list\":"@ + (ser_strlist(l2) + (",\"values\":"@ + (ser_strlist(w2) + (seq![
            '}',
            '}',
        ] + rb)))),
    );
    lemma_concat_cancel(
        "{\"list\":"@,
        ser_strlist(l1) + (",\"values\":"@ + (ser_strlist(w1) + (seq!['}', '}'] + ra))),
        ser_strlist(l2) + (",\"values\":"@ + (ser_strlist(w2) + (seq!['}', '}'] + rb))),
    );
    pd_strlist(
        l1,
        l2,
        ",\"values\":"@ + (ser_strlist(w1) + (seq!['}', '}'] + ra)),
        ",\"values\":"@ + (ser_strlist(w2) + (seq!['}', '}'] + rb)),
    );
    lemma_concat_cancel(
        ",\"values\":"@,
        ser_strlist(w1) + (seq!['}', '}'] + ra),
        ser_strlist(w2) + (seq!['}', '}'] + rb),
    );
    pd_strlist(w1, w2, seq!['}', '}'] + ra, seq!['}', '}'] + rb);
    lemma_concat_cancel(seq!['}', '}'], ra, rb);
}

/// A serialized boolean expression determines itself and its continuation.
#[verifier::rlimit(100)]
proof fn pd_bool(x1: BoolV, x2: BoolV, a: Seq<char>, b: Seq<char>)
    requires
        wf_bool(x1),
        wf_bool(x2),
        ser_bool(x1) + a == ser_bool(x2) + b,
    ensures
        x1 == x2,
        a == b,
    decreases ser_bool(x1).len(), 0int,
{
    lemma_bool_shape(x1);
    lemma_bool_shape(x2);
    lemma_tag_lits();
    let s = ser_bool(x1) + a;
    let t1 = bool_tag(x1);
    let t2 = bool_tag(x2);
    lemma_begins_of_concat(ser_bool(x1), a);
    lemma_begins_of_concat(ser_bool(x2), b);
    lemma_begins_trans(s, ser_bool(x1), tag_head(t1));
    lemma_begins_trans(s, ser_bool(x2), tag_head(t2));
    lemma_begins_decompose(s, tag_head(t1));
    lemma_begins_decompose(s, tag_head(t2));
    lemma_tag_head_pd(
        t1,
        t2,
        s.skip(tag_head(t1).len() as int),
        s.skip(tag_head(t2).len() as int),
    );
    match x1 {
        BoolV::Constant(b1) => match x2 {
            BoolV::Constant(b2) => {
                reveal_strlit("true}");
                reveal_strlit("false}");
                let l1 = if b1 {
                    "true}"@
                } else {
                    "false}"@
                };
                let l2 = if b2 {
                    "true}"@
                } else {
                    "false}"@
                };
                assert(s =~= tag_head("constant"@) + (l1 + a));
                assert(s =~= tag_head("constant"@) + (l2 + b));
                lemma_concat_cancel(tag_head("constant"@), l1 + a, l2 + b);
                if b1 != b2 {
                    assert((l1 + a)[0] == l1[0]);
                    assert((l2 + b)[0] == l2[0]);
                    assert(false);
                }
                lemma_concat_cancel(l1, a, b);
            },
            _ => {
                assert(false);
            },
        },
        BoolV::Attribute(k1) => match x2 {
            BoolV::Attribute(k2) => {
                assert(s =~= tag_head("attribute"@) + (quoted(k1) + (seq!['}'] + a)));
                assert(s =~= tag_head("attribute"@) + (quoted(k2) + (seq!['}'] + b)));
                lemma_concat_cancel(
                    tag_head("attribute"@),
                    quoted(k1) + (seq!['}'] + a),
                    quoted(k2) + (seq!['}'] + b),
                );
                lemma_quoted_pd(k1, k2, seq!['}'] + a, seq!['}'] + b);
                lemma_concat_cancel(seq!['}'], a, b);
            },
            _ => {
                assert(false);
            },
        },
        BoolV::In { list: l1, value: v1 } => match x2 {
            BoolV::In { list: l2, value: v2 } => {
                pd_in_payload(tag_head("in"@), *l1, *v1, *l2, *v2, s, a, b);
            },
            _ => {
                assert(false);
            },
        },
        BoolV::AnyIn { list: l1, values: w1 } => match x2 {
            BoolV::AnyIn { list: l2, values: w2 } => {
                pd_anyall_payload(tag_head("any_in"@), *l1, *w1, *l2, *w2, s, a, b);
            },
            _ => {
                assert(false);
            },
        },
        BoolV::AllIn { list: l1, values: w1 } => match x2 {
            BoolV::AllIn { list: l2, values: w2 } => {
                pd_anyall_payload(tag_head("all_in"@), *l1, *w1, *l2, *w2, s, a, b);
            },
            _ => {
                assert(false);
            },
        },
        BoolV::JsonPointer { pointer: p1, value: v1 } => match x2 {
            BoolV::JsonPointer { pointer: p2, value: v2 } => {
                pd_keyed_quoted(
                    tag_head("json_pointer"@),
                    "{\"pointer\":"@,
                    p1,
                    *v1,
                    p2,
                    *v2,
                    s,
                    a,
                    b,
                );
            },
            _ => {
                assert(false);
            },
        },
        BoolV::Matches(r1, v1) => match x2 {
            BoolV::Matches(r2, v2) => {
                pd_matches_payload(tag_head("matches"@), r1, *v1, r2, *v2, s, a, b);
            },
            _ => {
                assert(false);
            },
        },
        BoolV::StrEq(a1, c1) => match x2 {
            BoolV::StrEq(a2, c2) => {
                pd_streq(tag_head("str_eq"@), *a1, *c1, *a2, *c2, s, a, b);
            },
            _ => {
                assert(false);
            },
        },
        BoolV::NumEq(a1, c1) => match x2 {
            BoolV::NumEq(a2, c2) => {
                pd_numcmp(tag_head("num_eq"@), *a1, *c1, *a2, *c2, s, a, b);
            },
            _ => {
                assert(false);
            },
        },
        BoolV::Gt(a1, c1) => match x2 {
            BoolV::Gt(a2, c2) => {
                pd_numcmp(tag_head("gt"@), *a1, *c1, *a2, *c2, s, a, b);
            },
            _ => {
                assert(false);
            },
        },
        BoolV::Lt(a1, c1) => match x2 {
            BoolV::Lt(a2, c2) => {
                pd_numcmp(tag_head("lt"@), *a1, *c1, *a2, *c2, s, a, b);
            },
            _ => {
                assert(false);
            },
        },
        BoolV::Gte(a1, c1) => match x2 {
            BoolV::Gte(a2, c2) => {
                pd_numcmp(tag_head("gte"@), *a1, *c1, *a2, *c2, s, a, b);
            },
            _ => {
                assert(false);
            },
        },
        BoolV::Lte(a1, c1) => match x2 {
            BoolV::Lte(a2, c2) => {
                pd_numcmp(tag_head("lte"@), *a1, *c1, *a2, *c2, s, a, b);
            },
            _ => {
                assert(false);
            },
        },
        BoolV::Not(y1) => match x2 {
            BoolV::Not(y2) => {
                assert(s =~= tag_head("not"@) + (ser_bool(*y1) + (seq!['}'] + a)));
                assert(s =~= tag_head("not"@) + (ser_bool(*y2) + (seq!['}'] + b)));
                lemma_concat_cancel(
                    tag_head("not"@),
                    ser_bool(*y1) + (seq!['}'] + a),
                    ser_bool(*y2) + (seq!['}'] + b),
                );
                pd_bool(*y1, *y2, seq!['}'] + a, seq!['}'] + b);
                lemma_concat_cancel(seq!['}'], a, b);
            },
            _ => {
                assert(false);
            },
        },
        BoolV::And(xs1) => match x2 {
            BoolV::And(xs2) => {
                assert(s =~= tag_head("and"@) + (seq!['['] + (ser_bool_items(xs1) + (seq![']', '}']
                    + a))));
                assert(s =~= tag_head("and"@) + (seq!['['] + (ser_bool_items(xs2) + (seq![']', '}']
                    + b))));
                lemma_concat_cancel(
                    tag_head("and"@),
                    seq!['['] + (ser_bool_items(xs1) + (seq![']', '}'] + a)),
                    seq!['['] + (ser_bool_items(xs2) + (seq![']', '}'] + b)),
                );
                lemma_concat_cancel(
                    seq!['['],
                    ser_bool_items(xs1) + (seq![']', '}'] + a),
                    ser_bool_items(xs2) + (seq![']', '}'] + b),
                );
                pd_bool_items(xs1, xs2, seq![']', '}'] + a, seq![']', '}'] + b);
                lemma_concat_cancel(seq![']', '}'], a, b);
            },
            _ => {
                assert(false);
            },
        },
        BoolV::Or(xs1) => match x2 {
            BoolV::Or(xs2) => {
                assert(s =~= tag_head("or"@) + (seq!['['] + (ser_bool_items(xs1) + (seq![']', '}']
                    + a))));
                assert(s =~= tag_head("or"@) + (seq!['['] + (ser_bool_items(xs2) + (seq![']', '}']
                    + b))));
                lemma_concat_cancel(
                    tag_head("or"@),
                    seq!['['] + (ser_bool_items(xs1) + (seq![']', '}'] + a)),
                    seq!['['] + (ser_bool_items(xs2) + (seq![']', '}'] + b)),
                );
                lemma_concat_cancel(
                    seq!['['],
                    ser_bool_items(xs1) + (seq![']', '}'] + a),
                    ser_bool_items(xs2) + (seq![']', '}'] + b),
                );
                pd_bool_items(xs1, xs2, seq![']', '}'] + a, seq![']', '}'] + b);
                lemma_concat_cancel(seq![']', '}'], a, b);
            },
            _ => {
                assert(false);
            },
        },
    }
}

/// A serialized boolean array determines its items and its continuation.
proof fn pd_bool_items(xs1: Seq<BoolV>, xs2: Seq<BoolV>, a: Seq<char>, b: Seq<char>)
    requires
        wf_bools(xs1),
        wf_bools(xs2),
        ser_bool_items(xs1) + a == ser_bool_items(xs2) + b,
        a.len() > 0,
        b.len() > 0,
        a[0] == ']',
        b[0] == ']',
    ensures
        xs1 == xs2,
        a == b,
    decreases ser_bool_items(xs1).len(), 1int,
{
    reveal(ser_bool_items);
    reveal(ser_bool);
    let s = ser_bool_items(xs1) + a;
    if xs1.len() == 0 && xs2.len() == 0 {
        assert(Seq::<char>::empty() + a =~= a);
        assert(Seq::<char>::empty() + b =~= b);
        assert(xs1 =~= xs2);
    } else if xs1.len() == 0 {
        lemma_bool_items_first(xs2);
        lemma_bool_shape(xs2[0]);
        assert(Seq::<char>::empty() + a =~= a);
        assert(s[0] == ']');
        assert(ser_bool_items(xs2)[0] == '{');
        assert(s[0] == '{');
        assert(false);
    } else if xs2.len() == 0 {
        lemma_bool_items_first(xs1);
        lemma_bool_shape(xs1[0]);
        assert(Seq::<char>::empty() + b =~= b);
        assert(s[0] == b[0]);
        assert(ser_bool_items(xs1)[0] == '{');
        assert(s[0] == '{');
        assert(false);
    } else {
        lemma_bool_items_first(xs1);
        lemma_bool_items_first(xs2);
        lemma_bool_shape(xs1[0]);
        lemma_bool_shape(xs2[0]);
        assert(wf_bool(xs1[0]));
        assert(wf_bool(xs2[0]));
        let ghost aa = if xs1.len() == 1 {
            a
        } else {
            seq![','] + (ser_bool_items(xs1.skip(1)) + a)
        };
        let ghost bb = if xs2.len() == 1 {
            b
        } else {
            seq![','] + (ser_bool_items(xs2.skip(1)) + b)
        };
        assert(s =~= ser_bool(xs1[0]) + aa);
        assert(ser_bool_items(xs2) + b =~= ser_bool(xs2[0]) + bb);
        pd_bool(xs1[0], xs2[0], aa, bb);
        if xs1.len() == 1 && xs2.len() == 1 {
            assert(xs1 =~= xs2);
        } else if xs1.len() == 1 {
            assert(aa[0] == ']');
            assert(bb[0] == ',');
            assert(false);
        } else if xs2.len() == 1 {
            assert(aa[0] == ',');
            assert(bb[0] == ']');
            assert(false);
        } else {
            lemma_concat_cancel(
                seq![','],
                ser_bool_items(xs1.skip(1)) + a,
                ser_bool_items(xs2.skip(1)) + b,
            );
            assert(wf_bools(xs1.skip(1))) by {
                assert forall|i: int| 0 <= i < xs1.skip(1).len() implies wf_bool(
                    #[trigger] xs1.skip(1)[i],
                ) by {
                    assert(xs1.skip(1)[i] == xs1[i + 1]);
                    assert(wf_bool(xs1[i + 1]));
                }
            }
            assert(wf_bools(xs2.skip(1))) by {
                assert forall|i: int| 0 <= i < xs2.skip(1).len() implies wf_bool(
                    #[trigger] xs2.skip(1)[i],
                ) by {
                    assert(xs2.skip(1)[i] == xs2[i + 1]);
                    assert(wf_bool(xs2[i + 1]));
                }
            }
            pd_bool_items(xs1.skip(1), xs2.skip(1), a, b);
            assert(xs1.len() == xs2.len());
            assert forall|i: int| 0 <= i < xs1.len() implies xs1[i] == xs2[i] by {
                if i > 0 {
                    assert(xs1.skip(1)[i - 1] == xs2.skip(1)[i - 1]);
                }
            }
            assert(xs1 =~= xs2);
        }
    }
}

/// A serialized feature determines itself and its continuation.
proof fn pd_feature(f1: FeatureV, f2: FeatureV, a: Seq<char>, b: Seq<char>)
    requires
        wf_feature(f1),
        wf_feature(f2),
        ser_feature(f1) + a == ser_feature(f2) + b,
    ensures
        f1 == f2,
        a == b,
{
    lemma_feature_shape(f1);
    lemma_feature_shape(f2);
    let s = ser_feature(f1) + a;
    assert(s =~= "{\"name\":"@ + (quoted(f1.name) + (",\"rule\":"@ + (ser_bool(f1.rule) + (seq![
        '}',
    ] + a)))));
    assert(s =~= "{\"name\":"@ + (quoted(f2.name) + (",\"rule\":"@ + (ser_bool(f2.rule) + (seq![
        '}',
    ] + b)))));
    lemma_concat_cancel(
        "{\"name\":"@,
        quoted(f1.name) + (",\"rule\":"@ + (ser_bool(f1.rule) + (seq!['}'] + a))),
        quoted(f2.name) + (",\"rule\":"@ + (ser_bool(f2.rule) + (seq!['}'] + b))),
    );
    lemma_quoted_pd(
        f1.name,
        f2.name,
        ",\"rule\":"@ + (ser_bool(f1.rule) + (seq!['}'] + a)),
        ",\"rule\":"@ + (ser_bool(f2.rule) + (seq!['}'] + b)),
    );
    lemma_concat_cancel(
        ",\"rule\":"@,
        ser_bool(f1.rule) + (seq!['}'] + a),
        ser_bool(f2.rule) + (seq!['}'] + b),
    );
    pd_bool(f1.rule, f2.rule, seq!['}'] + a, seq!['}'] + b);
    lemma_concat_cancel(seq!['}'], a, b);
}

/// A serialized feature array determines its features and its continuation.
proof fn pd_feature_items(fs1: Seq<FeatureV>, fs2: Seq<FeatureV>, a: Seq<char>, b: Seq<char>)
    requires
        wf_features(fs1),
        wf_features(fs2),
        ser_feature_items(fs1) + a == ser_feature_items(fs2) + b,
        a.len() > 0,
        b.len() > 0,
        a[0] == ']',
        b[0] == ']',
    ensures
        fs1 == fs2,
        a == b,
    decreases fs1.len(),
{
    reveal(ser_feature_items);
    let s = ser_feature_items(fs1) + a;
    if fs1.len() == 0 && fs2.len() == 0 {
        assert(Seq::<char>::empty() + a =~= a);
        assert(Seq::<char>::empty() + b =~= b);
        assert(fs1 =~= fs2);
    } else if fs1.len() == 0 {
        lemma_feature_items_first(fs2);
        lemma_feature_shape(fs2[0]);
        assert(Seq::<char>::empty() + a =~= a);
        assert(s[0] == ']');
        assert(ser_feature_items(fs2)[0] == '{');
        assert(s[0] == '{');
        assert(false);
    } else if fs2.len() == 0 {
        lemma_feature_items_first(fs1);
        lemma_feature_shape(fs1[0]);
        assert(Seq::<char>::empty() + b =~= b);
        assert(s[0] == b[0]);
        assert(ser_feature_items(fs1)[0] == '{');
        assert(s[0] == '{');
        assert(false);
    } else {
        lemma_feature_items_first(fs1);
        lemma_feature_items_first(fs2);
        lemma_feature_shape(fs1[0]);
        lemma_feature_shape(fs2[0]);
        assert(wf_feature(fs1[0]));
        assert(wf_feature(fs2[0]));
        let ghost aa = if fs1.len() == 1 {
            a
        } else {
            seq![','] + (ser_feature_items(fs1.skip(1)) + a)
        };
        let ghost bb = if fs2.len() == 1 {
            b
        } else {
            seq![','] + (ser_feature_items(fs2.skip(1)) + b)
        };
        assert(s =~= ser_feature(fs1[0]) + aa);
        assert(ser_feature_items(fs2) + b =~= ser_feature(fs2[0]) + bb);
        pd_feature(fs1[0], fs2[0], aa, bb);
        if fs1.len() == 1 && fs2.len() == 1 {
            assert(fs1 =~= fs2);
        } else if fs1.len() == 1 {
            assert(aa[0] == ']');
            assert(bb[0] == ',');
            assert(false);
        } else if fs2.len() == 1 {
            assert(aa[0] == ',');
            assert(bb[0] == ']');
            assert(false);
        } else {
            lemma_concat_cancel(
                seq![','],
                ser_feature_items(fs1.skip(1)) + a,
                ser_feature_items(fs2.skip(1)) + b,
            );
            assert(wf_features(fs1.skip(1))) by {
                assert forall|i: int| 0 <= i < fs1.skip(1).len() implies wf_feature(
                    #[trigger] fs1.skip(1)[i],
                ) by {
                    assert(fs1.skip(1)[i] == fs1[i + 1]);
                    assert(wf_feature(fs1[i + 1]));
                }
            }
            assert(wf_features(fs2.skip(1))) by {
                assert forall|i: int| 0 <= i < fs2.skip(1).len() implies wf_feature(
                    #[trigger] fs2.skip(1)[i],
                ) by {
                    assert(fs2.skip(1)[i] == fs2[i + 1]);
                    assert(wf_feature(fs2[i + 1]));
                }
            }
            pd_feature_items(fs1.skip(1), fs2.skip(1), a, b);
            assert(fs1.len() == fs2.len());
            assert forall|i: int| 0 <= i < fs1.len() implies fs1[i] == fs2[i] by {
                if i > 0 {
                    assert(fs1.skip(1)[i - 1] == fs2.skip(1)[i - 1]);
                }
            }
            assert(fs1 =~= fs2);
        }
    }
}

/// A serialized string-list array determines its items and its
/// continuation.
proof fn pd_strlist_items(xs1: Seq<StrListV>, xs2: Seq<StrListV>, a: Seq<char>, b: Seq<char>)
    requires
        ser_strlist_items(xs1) + a == ser_strlist_items(xs2) + b,
        a.len() > 0,
        b.len() > 0,
        a[0] == ']',
        b[0] == ']',
    ensures
        xs1 == xs2,
        a == b,
    decreases xs1.len(),
{
    reveal(ser_strlist_items);
    let s = ser_strlist_items(xs1) + a;
    if xs1.len() == 0 && xs2.len() == 0 {
        assert(Seq::<char>::empty() + a =~= a);
        assert(Seq::<char>::empty() + b =~= b);
        assert(xs1 =~= xs2);
    } else if xs1.len() == 0 {
        lemma_strlist_items_first(xs2);
        lemma_strlist_shape(xs2[0]);
        assert(Seq::<char>::empty() + a =~= a);
        assert(s[0] == ']');
        assert(ser_strlist_items(xs2)[0] == '{');
        assert(s[0] == '{');
        assert(false);
    } else if xs2.len() == 0 {
        lemma_strlist_items_first(xs1);
        lemma_strlist_shape(xs1[0]);
        assert(Seq::<char>::empty() + b =~= b);
        assert(s[0] == b[0]);
        assert(ser_strlist_items(xs1)[0] == '{');
        assert(s[0] == '{');
        assert(false);
    } else {
        lemma_strlist_items_first(xs1);
        lemma_strlist_items_first(xs2);
        lemma_strlist_shape(xs1[0]);
        lemma_strlist_shape(xs2[0]);
        let ghost aa = if xs1.len() == 1 {
            a
        } else {
            seq![','] + (ser_strlist_items(xs1.skip(1)) + a)
        };
        let ghost bb = if xs2.len() == 1 {
            b
        } else {
            seq![','] + (ser_strlist_items(xs2.skip(1)) + b)
        };
        assert(s =~= ser_strlist(xs1[0]) + aa);
        assert(ser_strlist_items(xs2) + b =~= ser_strlist(xs2[0]) + bb);
        pd_strlist(xs1[0], xs2[0], aa, bb);
        if xs1.len() == 1 && xs2.len() == 1 {
            assert(xs1 =~= xs2);
        } else if xs1.len() == 1 {
            assert(aa[0] == ']');
            assert(bb[0] == ',');
            assert(false);
        } else if xs2.len() == 1 {
            assert(aa[0] == ',');
            assert(bb[0] == ']');
            assert(false);
        } else {
            lemma_concat_cancel(
                seq![','],
                ser_strlist_items(xs1.skip(1)) + a,
                ser_strlist_items(xs2.skip(1)) + b,
            );
            pd_strlist_items(xs1.skip(1), xs2.skip(1), a, b);
            assert(xs1.len() == xs2.len());
            assert forall|i: int| 0 <= i < xs1.len() implies xs1[i] == xs2[i] by {
                if i > 0 {
                    assert(xs1.skip(1)[i - 1] == xs2.skip(1)[i - 1]);
                }
            }
            assert(xs1 =~= xs2);
        }
    }
}

/// The explicit-configuration writer is injective.
pub proof fn lemma_ser_explicit_inj(c1: Seq<StrListV>, c2: Seq<StrListV>)
    requires
        ser_explicit(c1) == ser_explicit(c2),
    ensures
        c1 == c2,
{
    assert(ser_explicit(c1) =~= seq!['['] + (ser_strlist_items(c1) + seq![']']));
    assert(ser_explicit(c2) =~= seq!['['] + (ser_strlist_items(c2) + seq![']']));
    lemma_concat_cancel(
        seq!['['],
        ser_strlist_items(c1) + seq![']'],
        ser_strlist_items(c2) + seq![']'],
    );
    pd_strlist_items(c1, c2, seq![']'], seq![']']);
}

/// The implicit-configuration writer is injective on well-formed
/// configurations.
pub proof fn lemma_ser_implicit_inj(c1: Seq<FeatureV>, c2: Seq<FeatureV>)
    requires
        wf_features(c1),
        wf_features(c2),
        ser_implicit(c1) == ser_implicit(c2),
    ensures
        c1 == c2,
{
    assert(ser_implicit(c1) =~= seq!['['] + (ser_feature_items(c1) + seq![']']));
    assert(ser_implicit(c2) =~= seq!['['] + (ser_feature_items(c2) + seq![']']));
    lemma_concat_cancel(
        seq!['['],
        ser_feature_items(c1) + seq![']'],
        ser_feature_items(c2) + seq![']'],
    );
    pd_feature_items(c1, c2, seq![']'], seq![']']);
}

/// Splits a two-piece prefix into its pieces at their offsets.
pub proof fn lemma_chain2(v: Seq<char>, pos: int, p1: Seq<char>, p2: Seq<char>)
    requires
        0 <= pos <= v.len(),
        begins_with(v.skip(pos), p1 + p2),
    ensures
        begins_with(v.skip(pos), p1),
        begins_with(v.skip(pos + p1.len()), p2),
        pos + p1.len() + p2.len() <= v.len(),
{
    lemma_begins_concat(v.skip(pos), p1, p2);
    lemma_skip_skip(v, pos, p1.len() as int);
}

/// Splits a three-piece prefix into its pieces at their offsets.
pub proof fn lemma_chain3(v: Seq<char>, pos: int, p1: Seq<char>, p2: Seq<char>, p3: Seq<char>)
    requires
        0 <= pos <= v.len(),
        begins_with(v.skip(pos), p1 + (p2 + p3)),
    ensures
        begins_with(v.skip(pos), p1),
        begins_with(v.skip(pos + p1.len()), p2),
        begins_with(v.skip(pos + p1.len() + p2.len()), p3),
        pos + p1.len() + p2.len() + p3.len() <= v.len(),
{
    lemma_chain2(v, pos, p1, p2 + p3);
    lemma_chain2(v, pos + p1.len(), p2, p3);
}

/// Splits a four-piece prefix into its pieces at their offsets.
pub proof fn lemma_chain4(
    v: Seq<char>,
    pos: int,
    p1: Seq<char>,
    p2: Seq<char>,
    p3: Seq<char>,
    p4: Seq<char>,
)
    requires
        0 <= pos <= v.len(),
        begins_with(v.skip(pos), p1 + (p2 + (p3 + p4))),
    ensures
        begins_with(v.skip(pos), p1),
        begins_with(v.skip(pos + p1.len()), p2),
        begins_with(v.skip(pos + p1.len() + p2.len()), p3),
        begins_with(v.skip(pos + p1.len() + p2.len() + p3.len()), p4),
        pos + p1.len() + p2.len() + p3.len() + p4.len() <= v.len(),
{
    lemma_chain2(v, pos, p1, p2 + (p3 + p4));
    lemma_chain3(v, pos + p1.len(), p2, p3, p4);
}

/// Splits a five-piece prefix into its pieces at their offsets.
pub proof fn lemma_chain5(
    v: Seq<char>,
    pos: int,
    p1: Seq<char>,
    p2: Seq<char>,
    p3: Seq<char>,
    p4: Seq<char>,
    p5: Seq<char>,
)
    requires
        0 <= pos <= v.len(),
        begins_with(v.skip(pos), p1 + (p2 + (p3 + (p4 + p5)))),
    ensures
        begins_with(v.skip(pos), p1),
        begins_with(v.skip(pos + p1.len()), p2),
        begins_with(v.skip(pos + p1.len() + p2.len()), p3),
        begins_with(v.skip(pos + p1.len() + p2.len() + p3.len()), p4),
        begins_with(v.skip(pos + p1.len() + p2.len() + p3.len() + p4.len()), p5),
        pos + p1.len() + p2.len() + p3.len() + p4.len() + p5.len() <= v.len(),
{
    lemma_chain2(v, pos, p1, p2 + (p3 + (p4 + p5)));
    lemma_chain4(v, pos + p1.len(), p2, p3, p4, p5);
}

/// Splits a six-piece prefix into its pieces at their offsets.
pub proof fn lemma_chain6(
    v: Seq<char>,
    pos: int,
    p1: Seq<char>,
    p2: Seq<char>,
    p3: Seq<char>,
    p4: Seq<char>,
    p5: Seq<char>,
    p6: Seq<char>,
)
    requires
        0 <= pos <= v.len(),
        begins_with(v.skip(pos), p1 + (p2 + (p3 + (p4 + (p5 + p6))))),
    ensures
        begins_with(v.skip(pos), p1),
        begins_with(v.skip(pos + p1.len()), p2),
        begins_with(v.skip(pos + p1.len() + p2.len()), p3),
        begins_with(v.skip(pos + p1.len() + p2.len() + p3.len()), p4),
        begins_with(v.skip(pos + p1.len() + p2.len() + p3.len() + p4.len()), p5),
        begins_with(v.skip(pos + p1.len() + p2.len() + p3.len() + p4.len() + p5.len()), p6),
        pos + p1.len() + p2.len() + p3.len() + p4.len() + p5.len() + p6.len() <= v.len(),
{
    lemma_chain2(v, pos, p1, p2 + (p3 + (p4 + (p5 + p6))));
    lemma_chain5(v, pos + p1.len(), p2, p3, p4, p5, p6);
}

/// Length and leading characters of the record keys and literal bodies.
pub proof fn lemma_key_lits()
    ensures
        "{\"list\":"@.len() == 8,
        "{\"separator\":"@.len() == 13,
        "{\"regex\":"@.len() == 9,
        "{\"pointer\":"@.len() == 11,
        ",\"value\":"@.len() == 9,
        ",\"values\":"@.len() == 10,
        "{\"name\":"@.len() == 8,
        ",\"rule\":"@.len() == 8,
        "true}"@.len() == 5 && "true}"@[0] == 't',
        "false}"@.len() == 6 && "false}"@[0] == 'f',
{
    reveal_strlit("{\"list\":");
    reveal_strlit("{\"separator\":");
    reveal_strlit("{\"regex\":");
    reveal_strlit("{\"pointer\":");
    reveal_strlit(",\"value\":");
    reveal_strlit(",\"values\":");
    reveal_strlit("{\"name\":");
    reveal_strlit(",\"rule\":");
    reveal_strlit("true}");
    reveal_strlit("false}");
}

} // verus!
