//! The host-facing targeting contract: one pure function from request and
//! configuration to the assembled feature-token string.
//!
//! `target` never fails: explicit clauses that error contribute nothing,
//! implicit rules that error do not match, and the worst case is the empty
//! string. Its contract pins the output to a function of the
//! configuration's and the request's mathematical views alone, so repeated
//! calls on equal inputs yield byte-identical output.

use crate::assemble::{
    assemble_chars, lemma_union_tokens_members, lemma_union_tokens_sorted, strictly_sorted,
    union_spec, union_tokens,
};
use crate::strutil::join_spaces;
use crate::eval::ReqV;
use crate::explicit;
use crate::explicit::explicit_spec;
use crate::implicit;
use crate::implicit::implicit_spec;
use crate::expression::StrListV;
use crate::implicit::FeatureV;
use crate::request::Request;
use crate::strutil::to_chars;
use crate::trusted::chars_to_string;
use vstd::prelude::*;

verus! {

/// The assembled output for one request against the two configurations.
pub open spec fn target_spec(ecfg: Seq<StrListV>, icfg: Seq<FeatureV>, req: ReqV) -> Seq<char> {
    union_spec(explicit_spec(ecfg, req) + implicit_spec(icfg, req))
}

/// Merges two candidate token lists into the output string: sorted
/// lexicographically, deduplicated, joined with single spaces.
pub fn union(existing: &Vec<String>, new: &Vec<String>) -> (r: String)
    ensures
        r@ == union_spec(existing.deep_view() + new.deep_view()),
{
    let mut all: Vec<Vec<char>> = Vec::new();
    let ghost combined = existing.deep_view() + new.deep_view();
    let mut i: usize = 0;
    proof {
        assert(all.deep_view() =~= combined.take(0));
        assert(combined.len() == existing@.len() + new@.len());
    }
    while i < existing.len()
        invariant
            combined == existing.deep_view() + new.deep_view(),
            existing.deep_view().len() == existing.len(),
            0 <= i <= existing.len(),
            all.deep_view() == combined.take(i as int),
        decreases existing.len() - i,
    {
        let t = to_chars(existing[i].as_str());
        proof {
            assert(t.deep_view() =~= t@);
        }
        all.push(t);
        proof {
            assert(existing@[i as int].deep_view() == existing.deep_view()[i as int]);
            assert(combined[i as int] == existing.deep_view()[i as int]);
            assert(combined.take(i + 1) =~= combined.take(i as int).push(combined[i as int]));
            assert(all.deep_view() =~~= combined.take(i + 1));
        }
        i = i + 1;
    }
    let mut k: usize = 0;
    while k < new.len()
        invariant
            combined == existing.deep_view() + new.deep_view(),
            existing.deep_view().len() == existing.len(),
            new.deep_view().len() == new.len(),
            combined.len() == existing.len() + new.len(),
            0 <= k <= new.len(),
            all.deep_view() == combined.take(existing.len() + k),
        decreases new.len() - k,
    {
        let t = to_chars(new[k].as_str());
        proof {
            assert(t.deep_view() =~= t@);
        }
        all.push(t);
        proof {
            assert(new@[k as int].deep_view() == new.deep_view()[k as int]);
            assert(combined[existing.len() + k] == new.deep_view()[k as int]);
            assert(combined.take(existing.len() + k + 1) =~= combined.take(
                existing.len() + k,
            ).push(combined[existing.len() + k]));
            assert(all.deep_view() =~~= combined.take(existing.len() + k + 1));
        }
        k = k + 1;
    }
    proof {
        assert(combined.take(combined.len() as int) =~= combined);
    }
    let joined = assemble_chars(all);
    chars_to_string(&joined)
}

/// Explicit candidate features for the request.
pub fn target_explicit(request: &Request, config: &explicit::Config) -> (r: Vec<String>)
    ensures
        r.deep_view() == explicit_spec(config.view_spec(), request@),
{
    explicit::from_request(request, config)
}

/// Implicit candidate features for the request.
pub fn target_implicit(request: &Request, config: &implicit::Config) -> (r: Vec<String>)
    ensures
        r.deep_view() == implicit_spec(config.view_spec(), request@),
{
    implicit::from_request(request, config)
}

/// Computes the feature tokens for one request: explicit and implicit
/// candidates, merged, sorted, deduplicated and space-joined.
///
/// There is no precondition: for every configuration and request the
/// function returns normally, and the output is a function of the views of
/// its arguments alone.
pub fn target(
    request: &Request,
    explicit_config: &explicit::Config,
    implicit_config: &implicit::Config,
) -> (r: String)
    ensures
        r@ == target_spec(explicit_config.view_spec(), implicit_config.view_spec(), request@),
{
    let e = target_explicit(request, explicit_config);
    let i = target_implicit(request, implicit_config);
    union(&e, &i)
}

/// Purity: the output is one fixed sequence for given configuration and
/// request views; any two results of `target` on equal views are equal.
pub proof fn lemma_target_pure(
    r1: Seq<char>,
    r2: Seq<char>,
    ecfg: Seq<StrListV>,
    icfg: Seq<FeatureV>,
    req: ReqV,
)
    requires
        r1 == target_spec(ecfg, icfg, req),
        r2 == target_spec(ecfg, icfg, req),
    ensures
        r1 == r2,
{
}

/// Assembly determinism: the output is the space-join of a strictly
/// ascending token list that holds exactly the candidate tokens, so the
/// output carries no duplicate and its order does not depend on the order
/// in which candidates arrived.
pub proof fn lemma_target_assembly(ecfg: Seq<StrListV>, icfg: Seq<FeatureV>, req: ReqV)
    ensures
        target_spec(ecfg, icfg, req) == join_spaces(
            union_tokens(explicit_spec(ecfg, req) + implicit_spec(icfg, req)),
        ),
        strictly_sorted(union_tokens(explicit_spec(ecfg, req) + implicit_spec(icfg, req))),
        forall|x: Seq<char>|
            union_tokens(explicit_spec(ecfg, req) + implicit_spec(icfg, req)).contains(x)
                <==> (explicit_spec(ecfg, req) + implicit_spec(icfg, req)).contains(x),
{
    lemma_union_tokens_sorted(explicit_spec(ecfg, req) + implicit_spec(icfg, req));
    lemma_union_tokens_members(explicit_spec(ecfg, req) + implicit_spec(icfg, req));
}

} // verus!
