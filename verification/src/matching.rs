//! Pattern-based explicit matching: the early targeting interface used by
//! the out-of-band adapter.
//!
//! Features are read from a configurable header (split at whitespace) and
//! from the `host` attribute, matched against a pattern with a single `*`
//! placeholder for the feature name.

use crate::assemble::union_spec;
use crate::eval::ReqV;
use crate::request::Request;
use crate::strutil::{is_match_at, is_space, split_chars, split_spec, subvec, to_chars};
use crate::trusted::chars_to_string;
use vstd::prelude::*;

verus! {

/// Configuration of the pattern-based explicit matching.
pub struct ExplicitMatchingConfig {
    /// Pattern the host name is matched against: a string with a single
    /// `*` placeholder for the feature name.
    pub host: String,
    /// The header from which features can be enabled explicitly.
    pub header: String,
}

impl Default for ExplicitMatchingConfig {
    /// The default matching configuration: no host pattern, features read
    /// from `x-features`.
    fn default() -> (r: Self)
        ensures
            r.host@ == ""@,
            r.header@ == "x-features"@,
    {
        ExplicitMatchingConfig {
            host: String::from_str(""),
            header: String::from_str("x-features"),
        }
    }
}

/// The first position at or after `i` holding whitespace.
pub open spec fn ws_token_end(s: Seq<char>, i: int) -> int
    decreases s.len() + 1 - i,
{
    if i < 0 || i >= s.len() || is_space(s[i]) {
        i
    } else {
        ws_token_end(s, i + 1)
    }
}

proof fn lemma_ws_token_end_bounds(s: Seq<char>, i: int)
    requires
        0 <= i <= s.len(),
    ensures
        i <= ws_token_end(s, i) <= s.len(),
    decreases s.len() + 1 - i,
{
    if !(i >= s.len() || is_space(s[i])) {
        lemma_ws_token_end_bounds(s, i + 1);
    }
}

/// The maximal whitespace-free runs of `s`, in order.
pub open spec fn split_ws(s: Seq<char>) -> Seq<Seq<char>>
    decreases s.len(),
{
    if s.len() == 0 {
        Seq::empty()
    } else if is_space(s[0]) {
        split_ws(s.drop_first())
    } else {
        let k = ws_token_end(s, 1);
        if 1 <= k <= s.len() {
            seq![s.take(k)] + split_ws(s.skip(k))
        } else {
            seq![s]
        }
    }
}

/// Scans past non-whitespace, returning the first whitespace position.
fn scan_token(s: &Vec<char>, i: usize) -> (r: usize)
    requires
        i <= s@.len(),
    ensures
        r == ws_token_end(s@, i as int),
        i <= r <= s@.len(),
{
    let mut k: usize = i;
    while k < s.len() && !crate::strutil::space_char(s[k])
        invariant
            i <= k <= s@.len(),
            s@.len() == s.len(),
            ws_token_end(s@, i as int) == ws_token_end(s@, k as int),
        decreases s@.len() - k,
    {
        k = k + 1;
    }
    k
}

/// Splits at whitespace runs, dropping empty pieces.
pub fn split_whitespace_chars(s: &Vec<char>) -> (r: Vec<Vec<char>>)
    ensures
        r.deep_view() == split_ws(s@),
{
    let mut r: Vec<Vec<char>> = Vec::new();
    let mut rest: Vec<char> = subvec(s, 0, s.len());
    proof {
        assert(s@.subrange(0, s@.len() as int) =~= s@);
        assert(r.deep_view() + split_ws(rest@) =~= split_ws(s@));
    }
    loop
        invariant
            r.deep_view() + split_ws(rest@) == split_ws(s@),
        decreases rest@.len(),
    {
        let ghost pre = r.deep_view();
        if rest.len() == 0 {
            proof {
                assert(r.deep_view() =~~= split_ws(s@));
            }
            return r;
        }
        if crate::strutil::space_char(rest[0]) {
            let new_rest = subvec(&rest, 1, rest.len());
            proof {
                assert(rest@.drop_first() =~= rest@.subrange(1, rest@.len() as int));
            }
            rest = new_rest;
        } else {
            let k = scan_token(&rest, 1);
            proof {
                lemma_ws_token_end_bounds(rest@, 1);
            }
            let tok = subvec(&rest, 0, k);
            let new_rest = subvec(&rest, k, rest.len());
            r.push(tok);
            proof {
                assert(rest@.take(k as int) == tok@);
                assert(split_ws(rest@) == seq![rest@.take(k as int)] + split_ws(
                    rest@.skip(k as int),
                ));
                assert(r.deep_view() =~~= pre + seq![tok@]);
                assert(r.deep_view() + split_ws(new_rest@) =~~= split_ws(s@));
            }
            rest = new_rest;
        }
    }
}

/// `s` with every leading repetition of `p` removed.
pub open spec fn trim_start_spec(s: Seq<char>, p: Seq<char>) -> Seq<char>
    decreases s.len(),
{
    if p.len() == 0 {
        s
    } else if p.len() <= s.len() && s.take(p.len() as int) == p {
        trim_start_spec(s.skip(p.len() as int), p)
    } else {
        s
    }
}

/// `s` with every trailing repetition of `p` removed.
pub open spec fn trim_end_spec(s: Seq<char>, p: Seq<char>) -> Seq<char>
    decreases s.len(),
{
    if p.len() == 0 {
        s
    } else if p.len() <= s.len() && s.skip(s.len() - p.len()) == p {
        trim_end_spec(s.take(s.len() - p.len()), p)
    } else {
        s
    }
}

/// Removes every leading repetition of `p`.
fn trim_start_chars(s: &Vec<char>, p: &Vec<char>) -> (r: Vec<char>)
    ensures
        r@ == trim_start_spec(s@, p@),
{
    let mut rest: Vec<char> = subvec(s, 0, s.len());
    proof {
        assert(s@.subrange(0, s@.len() as int) =~= s@);
    }
    loop
        invariant
            trim_start_spec(rest@, p@) == trim_start_spec(s@, p@),
        decreases rest@.len(),
    {
        if p.len() == 0 || p.len() > rest.len() {
            return rest;
        }
        if !is_match_at(&rest, p, 0) {
            proof {
                assert(rest@.subrange(0, p@.len() as int) =~= rest@.take(p@.len() as int));
            }
            return rest;
        }
        proof {
            assert(rest@.subrange(0, p@.len() as int) =~= rest@.take(p@.len() as int));
        }
        let new_rest = subvec(&rest, p.len(), rest.len());
        proof {
            assert(rest@.skip(p@.len() as int) =~= rest@.subrange(p@.len() as int,
                rest@.len() as int));
        }
        rest = new_rest;
    }
}

/// Removes every trailing repetition of `p`.
fn trim_end_chars(s: &Vec<char>, p: &Vec<char>) -> (r: Vec<char>)
    ensures
        r@ == trim_end_spec(s@, p@),
{
    let mut rest: Vec<char> = subvec(s, 0, s.len());
    proof {
        assert(s@.subrange(0, s@.len() as int) =~= s@);
    }
    loop
        invariant
            trim_end_spec(rest@, p@) == trim_end_spec(s@, p@),
        decreases rest@.len(),
    {
        if p.len() == 0 || p.len() > rest.len() {
            return rest;
        }
        if !is_match_at(&rest, p, rest.len() - p.len()) {
            proof {
                assert(rest@.subrange(rest@.len() - p@.len(), rest@.len() as int) =~= rest@.skip(
                    rest@.len() - p@.len(),
                ));
            }
            return rest;
        }
        proof {
            assert(rest@.subrange(rest@.len() - p@.len(), rest@.len() as int) =~= rest@.skip(
                rest@.len() - p@.len(),
            ));
        }
        let new_rest = subvec(&rest, 0, rest.len() - p.len());
        proof {
            assert(rest@.take(rest@.len() - p@.len()) =~= rest@.subrange(0, rest@.len()
                - p@.len()));
        }
        rest = new_rest;
    }
}

/// The feature name matched out of `host` by a pattern holding one `*`
/// placeholder: the part between the pattern's prefix and postfix, with
/// repeated prefixes and postfixes stripped.
pub open spec fn match_host_spec(host: Seq<char>, pattern: Seq<char>) -> Option<Seq<char>> {
    let tokens = split_spec(pattern, seq!['*']);
    if tokens.len() != 2 {
        None
    } else {
        let pre = tokens[0];
        let post = tokens[1];
        if pre.len() <= host.len() && host.take(pre.len() as int) == pre && post.len()
            <= host.len() && host.skip(host.len() - post.len()) == post {
            Some(trim_end_spec(trim_start_spec(host, pre), post))
        } else {
            None
        }
    }
}

/// Matches `host` against the single-placeholder `pattern`.
pub fn match_host(host: &str, pattern: &str) -> (r: Option<String>)
    ensures
        match r {
            Some(v) => match_host_spec(host@, pattern@) == Some(v@),
            None => match_host_spec(host@, pattern@) is None,
        },
{
    let hc = to_chars(host);
    let pc = to_chars(pattern);
    let mut star: Vec<char> = Vec::new();
    star.push('*');
    proof {
        assert(star@ =~= seq!['*']);
    }
    let tokens = split_chars(&pc, &star);
    if tokens.len() != 2 {
        return None;
    }
    proof {
        assert(tokens@[0].deep_view() == tokens.deep_view()[0]);
        assert(tokens@[0].deep_view() =~= tokens@[0]@);
        assert(tokens@[1].deep_view() == tokens.deep_view()[1]);
        assert(tokens@[1].deep_view() =~= tokens@[1]@);
    }
    let pre = &tokens[0];
    let post = &tokens[1];
    if pre.len() > hc.len() || !is_match_at(&hc, pre, 0) {
        proof {
            if pre@.len() <= hc@.len() {
                assert(hc@.subrange(0, pre@.len() as int) =~= hc@.take(pre@.len() as int));
            }
        }
        return None;
    }
    if post.len() > hc.len() || !is_match_at(&hc, post, hc.len() - post.len()) {
        proof {
            if post@.len() <= hc@.len() {
                assert(hc@.subrange(hc@.len() - post@.len(), hc@.len() as int) =~= hc@.skip(
                    hc@.len() - post@.len(),
                ));
            }
        }
        return None;
    }
    proof {
        assert(hc@.subrange(0, pre@.len() as int) =~= hc@.take(pre@.len() as int));
        assert(hc@.subrange(hc@.len() - post@.len(), hc@.len() as int) =~= hc@.skip(
            hc@.len() - post@.len(),
        ));
    }
    let trimmed = trim_end_chars(&trim_start_chars(&hc, pre), post);
    Some(chars_to_string(&trimmed))
}

/// What pattern-based explicit matching yields: the header's
/// whitespace-separated tokens, plus the host match when there is one.
pub open spec fn explicit_match_spec(req: ReqV, host_pat: Seq<char>, header: Seq<char>) -> Seq<
    Seq<char>,
> {
    let base = if req.contains_key(header) {
        split_ws(req[header])
    } else {
        Seq::<Seq<char>>::empty()
    };
    if req.contains_key("host"@) && match_host_spec(req["host"@], host_pat) is Some {
        base.push(match_host_spec(req["host"@], host_pat)->0)
    } else {
        base
    }
}

/// The explicitly requested features of a request.
pub fn explicit(msg: &Request, config: &ExplicitMatchingConfig) -> (r: Vec<String>)
    ensures
        r.deep_view() == explicit_match_spec(msg@, config.host@, config.header@),
{
    let mut out: Vec<String> = match msg.get(config.header.as_str()) {
        Some(v) => {
            let vc = to_chars(v.as_str());
            let toks = split_whitespace_chars(&vc);
            crate::strutil::charvecs_to_strings(&toks)
        },
        None => Vec::new(),
    };
    let ghost base = out.deep_view();
    proof {
        if !msg@.contains_key(config.header@) {
            assert(out.deep_view() =~= Seq::<Seq<char>>::empty());
        }
    }
    match msg.get("host") {
        Some(h) => {
            match match_host(h.as_str(), config.host.as_str()) {
                Some(s) => {
                    out.push(s);
                    proof {
                        assert(out.deep_view() =~~= base.push(s@));
                    }
                },
                None => {},
            }
        },
        None => {},
    }
    out
}

/// The implicitly targeted features of a request: a placeholder that
/// enables `new_feature` unconditionally.
pub fn implicit(_msg: &Request) -> (r: Vec<String>)
    ensures
        r.deep_view() == seq!["new_feature"@],
{
    let mut v: Vec<String> = Vec::new();
    v.push(String::from_str("new_feature"));
    proof {
        assert(v.deep_view() =~~= seq!["new_feature"@]);
    }
    v
}

/// Merges two candidate token lists into the output string: sorted
/// lexicographically, deduplicated, joined with single spaces.
pub fn union(existing: &Vec<String>, new: &Vec<String>) -> (r: String)
    ensures
        r@ == union_spec(existing.deep_view() + new.deep_view()),
{
    crate::features::union(existing, new)
}

} // verus!
