//! The boundary to outside libraries.
//!
//! Each wrapper here is `external_body`: its contract is believed, not
//! proved. Results that depend on the arguments alone but are too large to
//! state (a regex match, a user-agent parse, a JSON pointer lookup) are given
//! uninterpreted names, and the verified evaluator's own contracts are stated
//! over those names.

use vstd::prelude::*;

verus! {

/// Relies on `String::from_iter`: collecting characters yields exactly those
/// characters.
#[verifier::external_body]
pub(crate) fn chars_to_string(v: &Vec<char>) -> (s: String)
    ensures
        s@ == v@,
{
    v.iter().collect()
}

/// The bytes that standard base64 decoding yields for `s`, or `None` when
/// `s` is not valid base64.
pub uninterp spec fn b64_of(s: Seq<char>) -> Option<Seq<u8>>;

/// Relies on `base64::decode`: the decoded bytes depend on the input
/// characters alone.
#[verifier::external_body]
pub(crate) fn b64_decode(s: &str) -> (r: Option<Vec<u8>>)
    ensures
        r.deep_view() == b64_of(s@),
{
    base64::decode(s).ok()
}

/// The characters that UTF-8 decoding yields for `bytes`, or `None` when
/// `bytes` is not valid UTF-8.
pub uninterp spec fn utf8_of(bytes: Seq<u8>) -> Option<Seq<char>>;

/// Relies on `String::from_utf8`: the decoded string depends on the bytes
/// alone.
#[verifier::external_body]
pub(crate) fn utf8_string(bytes: Vec<u8>) -> (r: Option<String>)
    ensures
        r.deep_view() == utf8_of(bytes@),
{
    String::from_utf8(bytes).ok()
}

/// Whether `p` is a valid regular expression pattern.
pub uninterp spec fn regex_ok(p: Seq<char>) -> bool;

/// Whether the regular expression `p` matches somewhere inside `s`
/// (a search, not a full match).
pub uninterp spec fn re_match(p: Seq<char>, s: Seq<char>) -> bool;

/// Relies on `regex::Regex::new` and `regex::Regex::is_match`: pattern
/// validity and the search result depend on the two strings alone.
#[verifier::external_body]
pub(crate) fn re_is_match(p: &str, s: &str) -> (r: Option<bool>)
    ensures
        r is Some <==> regex_ok(p@),
        r matches Some(m) ==> m == re_match(p@, s@),
{
    regex::Regex::new(p).ok().map(|re| re.is_match(s))
}

/// The capture groups of the first match of `p` in `s`: `None` when nothing
/// matches, otherwise one entry per group (group 0 first), each `None` when
/// the group did not participate in the match.
pub uninterp spec fn re_caps(p: Seq<char>, s: Seq<char>) -> Option<Seq<Option<Seq<char>>>>;

/// Relies on `regex::Regex::new` and `regex::Regex::captures`: the captures
/// of the first match depend on the two strings alone.
#[verifier::external_body]
pub(crate) fn re_captures(p: &str, s: &str) -> (r: Option<Option<Vec<Option<String>>>>)
    ensures
        r is Some <==> regex_ok(p@),
        r matches Some(c) ==> c.deep_view() == re_caps(p@, s@),
{
    let re = match regex::Regex::new(p) {
        Ok(re) => re,
        Err(_) => {
            return None;
        },
    };
    Some(re.captures(s).map(|caps|
        caps.iter().map(|m| m.map(|g| g.as_str().to_string())).collect()))
}

/// What the user-agent parser derives from a `User-Agent` string: browser
/// name, browser version and operating system, or `None` when the string is
/// not recognised.
pub uninterp spec fn ua_of(s: Seq<char>) -> Option<(Seq<char>, Seq<char>, Seq<char>)>;

/// Relies on `woothee::parser::Parser::parse`: the parse result depends on
/// the user-agent string alone.
#[verifier::external_body]
pub(crate) fn ua_parse(s: &str) -> (r: Option<(String, String, String)>)
    ensures
        r.deep_view() == ua_of(s@),
{
    woothee::parser::Parser::new().parse(s).map(|ua| (
        ua.name.to_string(),
        ua.version.to_string(),
        ua.os.to_string(),
    ))
}

/// Whether `j` parses as a JSON document.
pub uninterp spec fn json_wf(j: Seq<char>) -> bool;

/// The boolean at JSON pointer `p` inside document `j`, or `None` when the
/// pointer does not resolve or the value there is not a boolean.
pub uninterp spec fn json_ptr_bool(j: Seq<char>, p: Seq<char>) -> Option<bool>;

/// Relies on `serde_json::from_str` and `serde_json::Value::pointer`: both
/// results depend on the document and pointer strings alone.
#[verifier::external_body]
pub(crate) fn json_bool_at(json: &str, ptr: &str) -> (r: Result<Option<bool>, ()>)
    ensures
        r is Ok <==> json_wf(json@),
        r matches Ok(v) ==> v == json_ptr_bool(json@, ptr@),
{
    match serde_json::from_str::<serde_json::Value>(json) {
        Ok(v) => Ok(v.pointer(ptr).and_then(|x| x.as_bool())),
        Err(_) => Err(()),
    }
}

/// The string at JSON pointer `p` inside document `j`, or `None` when the
/// pointer does not resolve or the value there is not a string.
pub uninterp spec fn json_ptr_string(j: Seq<char>, p: Seq<char>) -> Option<Seq<char>>;

/// Relies on `serde_json::from_str` and `serde_json::Value::pointer`: both
/// results depend on the document and pointer strings alone.
#[verifier::external_body]
pub(crate) fn json_string_at(json: &str, ptr: &str) -> (r: Result<Option<String>, ()>)
    ensures
        r is Ok <==> json_wf(json@),
        r matches Ok(v) ==> v.deep_view() == json_ptr_string(json@, ptr@),
{
    match serde_json::from_str::<serde_json::Value>(json) {
        Ok(v) => Ok(v.pointer(ptr).and_then(|x| x.as_str().map(|s| s.to_string()))),
        Err(_) => Err(()),
    }
}

/// The decimal text of the number at JSON pointer `p` inside document `j`,
/// or `None` when the pointer does not resolve or the value there is not a
/// number.
pub uninterp spec fn json_ptr_number(j: Seq<char>, p: Seq<char>) -> Option<Seq<char>>;

/// Relies on `serde_json::from_str` and `serde_json::Value::pointer`: both
/// results depend on the document and pointer strings alone. The number is
/// handed on in its textual JSON form.
#[verifier::external_body]
pub(crate) fn json_number_at(json: &str, ptr: &str) -> (r: Result<Option<String>, ()>)
    ensures
        r is Ok <==> json_wf(json@),
        r matches Ok(v) ==> v.deep_view() == json_ptr_number(json@, ptr@),
{
    match serde_json::from_str::<serde_json::Value>(json) {
        Ok(v) => Ok(v.pointer(ptr).and_then(|x|
            if x.is_number() { Some(x.to_string()) } else { None })),
        Err(_) => Err(()),
    }
}

} // verus!
