//! The typed expression language: four result sorts (Bool, Str, StrList,
//! Num), each a tree of atoms, derivations and combinators evaluated against
//! an immutable request map.
//!
//! Each executable tree has a ghost mirror (`BoolV`, `StrV`, `StrListV`,
//! `NumV`) over character sequences; contracts are stated over the mirrors.

use vstd::prelude::*;

verus! {

broadcast use
    vstd::std_specs::vec::axiom_vec_index_decreases,
    vstd::std_specs::vec::axiom_vec_decreases_to_view,
    vstd::seq::axiom_seq_index_decreases,
;

/// A boolean-sorted expression.
pub enum Bool {
    /// The identity expression.
    Constant(bool),
    /// True iff the named request attribute is present.
    Attribute(String),
    /// The value is contained in the list.
    In { list: StrList, value: Str },
    /// Any of the values is contained in the list.
    AnyIn { list: StrList, values: StrList },
    /// Every one of the values is contained in the list.
    AllIn { list: StrList, values: StrList },
    /// The boolean found at an RFC 6901 JSON pointer inside the value.
    JsonPointer { pointer: String, value: Str },
    /// The regular expression matches somewhere inside the value.
    Matches(String, Str),
    /// Equality of strings.
    StrEq(Str, Str),
    /// Equality of numbers.
    NumEq(Num, Num),
    /// Strictly greater for numbers.
    Gt(Num, Num),
    /// Strictly less for numbers.
    Lt(Num, Num),
    /// Greater or equal for numbers.
    Gte(Num, Num),
    /// Less or equal for numbers.
    Lte(Num, Num),
    /// Logical NOT.
    Not(Box<Bool>),
    /// Logical AND over all children.
    And(Vec<Bool>),
    /// Logical OR over all children.
    Or(Vec<Bool>),
}

/// A string-sorted expression.
pub enum Str {
    /// The identity expression.
    Constant(String),
    /// The value of the named request attribute.
    Attribute(String),
    /// Standard base64 decoding of the value, then UTF-8 decoding.
    Base64(Box<Str>),
    /// The first capture group of the regular expression over the value.
    Extract { regex: String, value: Box<Str> },
    /// The value of the named cookie from the `cookie` header.
    Cookie(String),
    /// The browser name derived from the `user-agent` header.
    Browser,
    /// The browser version derived from the `user-agent` header.
    BrowserVersion,
    /// The operating system derived from the `user-agent` header.
    OperatingSystem,
    /// The string found at an RFC 6901 JSON pointer inside the value.
    JsonPointer { pointer: String, value: Box<Str> },
    /// The first item of a list.
    First(Box<StrList>),
    /// The last item of a list.
    Last(Box<StrList>),
}

/// A string-list-sorted expression.
pub enum StrList {
    /// The identity expression.
    Constant(Vec<String>),
    /// The value split at each occurrence of the separator; the empty input
    /// yields the empty list.
    Split { separator: String, value: Str },
    /// The capture groups of the first match of the regular expression over
    /// the value, skipping group zero.
    Extract { regex: String, value: Box<Str> },
    /// The tokens of an RFC 7231 quality-value header, sorted by descending
    /// weight; ties keep their input order.
    HttpQualityValue(Str),
}

/// A number-sorted expression.
pub enum Num {
    /// The identity expression: a decimal literal held as text.
    /// Text that is not a numeric literal evaluates to a parse failure.
    Constant(String),
    /// The value of the named request attribute, parsed as a decimal.
    Attribute(String),
    /// A deterministic, uniformly distributed projection of the inner
    /// string into [0, 100), with one decimal place.
    Rank(Str),
    /// The number found at an RFC 6901 JSON pointer inside the value.
    JsonPointer { pointer: String, value: Str },
}

/// Ghost mirror of `Bool`.
pub ghost enum BoolV {
    Constant(bool),
    Attribute(Seq<char>),
    In { list: Box<StrListV>, value: Box<StrV> },
    AnyIn { list: Box<StrListV>, values: Box<StrListV> },
    AllIn { list: Box<StrListV>, values: Box<StrListV> },
    JsonPointer { pointer: Seq<char>, value: Box<StrV> },
    Matches(Seq<char>, Box<StrV>),
    StrEq(Box<StrV>, Box<StrV>),
    NumEq(Box<NumV>, Box<NumV>),
    Gt(Box<NumV>, Box<NumV>),
    Lt(Box<NumV>, Box<NumV>),
    Gte(Box<NumV>, Box<NumV>),
    Lte(Box<NumV>, Box<NumV>),
    Not(Box<BoolV>),
    And(Seq<BoolV>),
    Or(Seq<BoolV>),
}

/// Ghost mirror of `Str`.
pub ghost enum StrV {
    Constant(Seq<char>),
    Attribute(Seq<char>),
    Base64(Box<StrV>),
    Extract { regex: Seq<char>, value: Box<StrV> },
    Cookie(Seq<char>),
    Browser,
    BrowserVersion,
    OperatingSystem,
    JsonPointer { pointer: Seq<char>, value: Box<StrV> },
    First(Box<StrListV>),
    Last(Box<StrListV>),
}

/// Ghost mirror of `StrList`.
pub ghost enum StrListV {
    Constant(Seq<Seq<char>>),
    Split { separator: Seq<char>, value: Box<StrV> },
    Extract { regex: Seq<char>, value: Box<StrV> },
    HttpQualityValue(Box<StrV>),
}

/// Ghost mirror of `Num`.
pub ghost enum NumV {
    Constant(Seq<char>),
    Attribute(Seq<char>),
    Rank(Box<StrV>),
    JsonPointer { pointer: Seq<char>, value: Box<StrV> },
}

/// The mirror of a boolean expression.
pub open spec fn bool_view(e: Bool) -> BoolV
    decreases e,
{
    match e {
        Bool::Constant(b) => BoolV::Constant(b),
        Bool::Attribute(k) => BoolV::Attribute(k@),
        Bool::In { list, value } => BoolV::In {
            list: Box::new(strlist_view(list)),
            value: Box::new(str_view(value)),
        },
        Bool::AnyIn { list, values } => BoolV::AnyIn {
            list: Box::new(strlist_view(list)),
            values: Box::new(strlist_view(values)),
        },
        Bool::AllIn { list, values } => BoolV::AllIn {
            list: Box::new(strlist_view(list)),
            values: Box::new(strlist_view(values)),
        },
        Bool::JsonPointer { pointer, value } => BoolV::JsonPointer {
            pointer: pointer@,
            value: Box::new(str_view(value)),
        },
        Bool::Matches(re, v) => BoolV::Matches(re@, Box::new(str_view(v))),
        Bool::StrEq(a, b) => BoolV::StrEq(Box::new(str_view(a)), Box::new(str_view(b))),
        Bool::NumEq(a, b) => BoolV::NumEq(Box::new(num_view(a)), Box::new(num_view(b))),
        Bool::Gt(a, b) => BoolV::Gt(Box::new(num_view(a)), Box::new(num_view(b))),
        Bool::Lt(a, b) => BoolV::Lt(Box::new(num_view(a)), Box::new(num_view(b))),
        Bool::Gte(a, b) => BoolV::Gte(Box::new(num_view(a)), Box::new(num_view(b))),
        Bool::Lte(a, b) => BoolV::Lte(Box::new(num_view(a)), Box::new(num_view(b))),
        Bool::Not(x) => BoolV::Not(Box::new(bool_view(*x))),
        Bool::And(xs) => BoolV::And(bools_view(xs@)),
        Bool::Or(xs) => BoolV::Or(bools_view(xs@)),
    }
}

/// The mirrors of a sequence of boolean expressions.
pub open spec fn bools_view(s: Seq<Bool>) -> Seq<BoolV>
    decreases s,
{
    if s.len() == 0 {
        Seq::empty()
    } else {
        bools_view(s.drop_last()).push(bool_view(s.last()))
    }
}

/// The mirrors of a sequence of string-list expressions.
pub open spec fn strlists_view(s: Seq<StrList>) -> Seq<StrListV>
    decreases s,
{
    if s.len() == 0 {
        Seq::empty()
    } else {
        strlists_view(s.drop_last()).push(strlist_view(s.last()))
    }
}

/// Mirrors preserve length and element order.
pub proof fn lemma_strlists_view_index(s: Seq<StrList>)
    ensures
        strlists_view(s).len() == s.len(),
        forall|i: int| 0 <= i < s.len() ==> #[trigger] strlists_view(s)[i] == strlist_view(s[i]),
    decreases s,
{
    if s.len() > 0 {
        lemma_strlists_view_index(s.drop_last());
        assert forall|i: int|
            0 <= i < s.len() implies #[trigger] strlists_view(s)[i] == strlist_view(s[i]) by {
            if i < s.len() - 1 {
                assert(s.drop_last()[i] == s[i]);
                assert(strlists_view(s)[i] == strlists_view(s.drop_last())[i]);
            }
        }
    }
}

/// The mirror of a string expression.
pub open spec fn str_view(e: Str) -> StrV
    decreases e,
{
    match e {
        Str::Constant(s) => StrV::Constant(s@),
        Str::Attribute(k) => StrV::Attribute(k@),
        Str::Base64(v) => StrV::Base64(Box::new(str_view(*v))),
        Str::Extract { regex, value } => StrV::Extract {
            regex: regex@,
            value: Box::new(str_view(*value)),
        },
        Str::Cookie(n) => StrV::Cookie(n@),
        Str::Browser => StrV::Browser,
        Str::BrowserVersion => StrV::BrowserVersion,
        Str::OperatingSystem => StrV::OperatingSystem,
        Str::JsonPointer { pointer, value } => StrV::JsonPointer {
            pointer: pointer@,
            value: Box::new(str_view(*value)),
        },
        Str::First(l) => StrV::First(Box::new(strlist_view(*l))),
        Str::Last(l) => StrV::Last(Box::new(strlist_view(*l))),
    }
}

/// The mirror of a string-list expression.
pub open spec fn strlist_view(e: StrList) -> StrListV
    decreases e,
{
    match e {
        StrList::Constant(vs) => StrListV::Constant(vs.deep_view()),
        StrList::Split { separator, value } => StrListV::Split {
            separator: separator@,
            value: Box::new(str_view(value)),
        },
        StrList::Extract { regex, value } => StrListV::Extract {
            regex: regex@,
            value: Box::new(str_view(*value)),
        },
        StrList::HttpQualityValue(v) => StrListV::HttpQualityValue(Box::new(str_view(v))),
    }
}

/// The mirror of a number expression.
pub open spec fn num_view(e: Num) -> NumV
    decreases e,
{
    match e {
        Num::Constant(t) => NumV::Constant(t@),
        Num::Attribute(k) => NumV::Attribute(k@),
        Num::Rank(v) => NumV::Rank(Box::new(str_view(v))),
        Num::JsonPointer { pointer, value } => NumV::JsonPointer {
            pointer: pointer@,
            value: Box::new(str_view(value)),
        },
    }
}

/// The mirror of a pushed sequence extends the mirrors by one.
pub proof fn lemma_bools_view_push(s: Seq<Bool>, e: Bool)
    ensures
        bools_view(s.push(e)) == bools_view(s).push(bool_view(e)),
{
    assert(s.push(e).drop_last() =~= s);
    assert(s.push(e).last() == e);
}

/// Mirrors preserve length and element order.
pub proof fn lemma_bools_view_index(s: Seq<Bool>)
    ensures
        bools_view(s).len() == s.len(),
        forall|i: int| 0 <= i < s.len() ==> #[trigger] bools_view(s)[i] == bool_view(s[i]),
    decreases s,
{
    if s.len() > 0 {
        lemma_bools_view_index(s.drop_last());
        assert forall|i: int| 0 <= i < s.len() implies #[trigger] bools_view(s)[i] == bool_view(
            s[i],
        ) by {
            if i < s.len() - 1 {
                assert(s.drop_last()[i] == s[i]);
                assert(bools_view(s)[i] == bools_view(s.drop_last())[i]);
            }
        }
    }
}

} // verus!
