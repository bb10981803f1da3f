//! Implicit targeting: feature names guarded by named boolean rules.
//!
//! Each feature's rule is evaluated against the request; the name is
//! emitted exactly when the rule yields true. A rule that yields false or
//! fails to evaluate contributes nothing: a rule over a missing optional
//! header simply does not match.

use crate::eval::{eval_bool_v, ReqV};
use crate::expression::{bool_view, Bool, BoolV};
use crate::request::Request;
use vstd::prelude::*;

verus! {

/// Implicit targeting configuration for a single feature flag.
pub struct Feature {
    /// The opaque feature identifier.
    pub name: String,
    /// The rule under which the feature is emitted.
    pub rule: Bool,
}

/// Ghost mirror of `Feature`.
pub ghost struct FeatureV {
    pub name: Seq<char>,
    pub rule: BoolV,
}

/// The mirror of a feature.
pub open spec fn feature_view(f: Feature) -> FeatureV {
    FeatureV { name: f.name@, rule: bool_view(f.rule) }
}

/// The mirrors of a sequence of features.
pub open spec fn features_view(s: Seq<Feature>) -> Seq<FeatureV>
    decreases s,
{
    if s.len() == 0 {
        Seq::empty()
    } else {
        features_view(s.drop_last()).push(feature_view(s.last()))
    }
}

/// Mirrors preserve length and element order.
pub proof fn lemma_features_view_index(s: Seq<Feature>)
    ensures
        features_view(s).len() == s.len(),
        forall|i: int| 0 <= i < s.len() ==> #[trigger] features_view(s)[i] == feature_view(s[i]),
    decreases s,
{
    if s.len() > 0 {
        lemma_features_view_index(s.drop_last());
        assert forall|i: int|
            0 <= i < s.len() implies #[trigger] features_view(s)[i] == feature_view(s[i]) by {
            if i < s.len() - 1 {
                assert(s.drop_last()[i] == s[i]);
                assert(features_view(s)[i] == features_view(s.drop_last())[i]);
            }
        }
    }
}

/// A set of features and their matching rules.
pub struct Config(pub Vec<Feature>);

impl Config {
    /// The mirror of the configuration.
    pub open spec fn view_spec(&self) -> Seq<FeatureV> {
        features_view(self.0@)
    }
}

/// The names whose rules evaluate to true, in configuration order; a rule
/// that fails or yields false contributes nothing.
pub open spec fn implicit_spec(cfg: Seq<FeatureV>, req: ReqV) -> Seq<Seq<char>>
    decreases cfg.len(),
{
    if cfg.len() == 0 {
        Seq::empty()
    } else {
        implicit_spec(cfg.drop_last(), req) + (if eval_bool_v(cfg.last().rule, req) == Result::<
            bool,
            crate::eval::EvalErrV,
        >::Ok(true) {
            seq![cfg.last().name]
        } else {
            Seq::<Seq<char>>::empty()
        })
    }
}

/// Evaluates the implicit configuration against a request.
pub fn from_request(request: &Request, config: &Config) -> (r: Vec<String>)
    ensures
        r.deep_view() == implicit_spec(config.view_spec(), request@),
{
    let ghost cfg = features_view(config.0@);
    proof {
        lemma_features_view_index(config.0@);
    }
    let mut out: Vec<String> = Vec::new();
    let mut i: usize = 0;
    proof {
        assert(cfg.take(0) =~= Seq::<FeatureV>::empty());
        assert(out.deep_view() =~= implicit_spec(cfg.take(0), request@));
    }
    while i < config.0.len()
        invariant
            cfg == features_view(config.0@),
            cfg.len() == config.0@.len(),
            forall|k: int| 0 <= k < config.0@.len() ==> #[trigger] cfg[k] == feature_view(
                config.0@[k],
            ),
            0 <= i <= config.0.len(),
            config.0@.len() == config.0.len(),
            out.deep_view() == implicit_spec(cfg.take(i as int), request@),
        decreases config.0.len() - i,
    {
        let ghost pre = out.deep_view();
        proof {
            assert(cfg.take(i + 1).drop_last() =~= cfg.take(i as int));
            assert(cfg.take(i + 1).last() == cfg[i as int]);
        }
        let emit = match config.0[i].rule.eval(request) {
            Ok(true) => true,
            _ => false,
        };
        if emit {
            out.push(config.0[i].name.clone());
            proof {
                assert(out.deep_view() =~~= pre + seq![cfg[i as int].name]);
            }
        } else {
            proof {
                assert(pre + Seq::<Seq<char>>::empty() =~= pre);
            }
        }
        proof {
            assert(out.deep_view() =~= implicit_spec(cfg.take(i + 1), request@));
        }
        i = i + 1;
    }
    proof {
        assert(cfg.take(config.0@.len() as int) =~= cfg);
    }
    out
}

impl Default for Config {
    /// The default implicit configuration: no features.
    fn default() -> (r: Self)
        ensures
            r.0@.len() == 0,
    {
        Config(Vec::new())
    }
}

} // verus!
