//! Explicit targeting: operator-declared projections from request
//! attributes to feature names.
//!
//! Each string-list expression of the configuration is evaluated; failures
//! are dropped silently (a missing optional header must not poison the
//! pipeline); the successful results are concatenated in configuration
//! order and sorted lexicographically.

use crate::assemble::{sort_tokens, sort_strings};
use crate::eval::{eval_strlist_v, ReqV};
use crate::expression::{
    lemma_strlists_view_index, strlist_view, strlists_view, Str, StrList, StrListV,
};
use crate::request::Request;
use vstd::prelude::*;

verus! {

/// Explicit targeting configuration: an ordered sequence of string-list
/// expressions.
pub struct Config(pub Vec<StrList>);

impl Config {
    /// The mirror of the configuration.
    pub open spec fn view_spec(&self) -> Seq<StrListV> {
        strlists_view(self.0@)
    }
}

/// The successful results of the configured expressions, concatenated in
/// configuration order; failing expressions contribute nothing.
pub open spec fn explicit_collect(cfg: Seq<StrListV>, req: ReqV) -> Seq<Seq<char>>
    decreases cfg.len(),
{
    if cfg.len() == 0 {
        Seq::empty()
    } else {
        explicit_collect(cfg.drop_last(), req) + (match eval_strlist_v(cfg.last(), req) {
            Result::Ok(v) => v,
            Result::Err(_) => Seq::empty(),
        })
    }
}

/// The explicit candidate features: collected successes, sorted.
pub open spec fn explicit_spec(cfg: Seq<StrListV>, req: ReqV) -> Seq<Seq<char>> {
    sort_tokens(explicit_collect(cfg, req))
}

/// Evaluates the explicit configuration against a request.
pub fn from_request(request: &Request, config: &Config) -> (r: Vec<String>)
    ensures
        r.deep_view() == explicit_spec(config.view_spec(), request@),
{
    let ghost cfg = strlists_view(config.0@);
    proof {
        lemma_strlists_view_index(config.0@);
    }
    let mut collected: Vec<String> = Vec::new();
    let mut i: usize = 0;
    proof {
        assert(cfg.take(0) =~= Seq::<StrListV>::empty());
        assert(collected.deep_view() =~= explicit_collect(cfg.take(0), request@));
    }
    while i < config.0.len()
        invariant
            cfg == strlists_view(config.0@),
            cfg.len() == config.0@.len(),
            forall|k: int| 0 <= k < config.0@.len() ==> #[trigger] cfg[k] == strlist_view(
                config.0@[k],
            ),
            0 <= i <= config.0.len(),
            config.0@.len() == config.0.len(),
            collected.deep_view() == explicit_collect(cfg.take(i as int), request@),
        decreases config.0.len() - i,
    {
        let ghost pre = collected.deep_view();
        proof {
            assert(cfg.take(i + 1).drop_last() =~= cfg.take(i as int));
            assert(cfg.take(i + 1).last() == cfg[i as int]);
        }
        match config.0[i].eval(request) {
            Ok(vs) => {
                let mut k: usize = 0;
                proof {
                    assert(collected.deep_view() =~= pre + vs.deep_view().take(0));
                }
                while k < vs.len()
                    invariant
                        pre == explicit_collect(cfg.take(i as int), request@),
                        0 <= k <= vs.len(),
                        vs.deep_view().len() == vs.len(),
                        collected.deep_view() == pre + vs.deep_view().take(k as int),
                    decreases vs.len() - k,
                {
                    collected.push(vs[k].clone());
                    proof {
                        assert(vs@[k as int].deep_view() == vs.deep_view()[k as int]);
                        assert(vs.deep_view().take(k + 1) =~= vs.deep_view().take(k as int).push(
                            vs.deep_view()[k as int],
                        ));
                        assert((pre + vs.deep_view().take(k as int)).push(
                            vs.deep_view()[k as int],
                        ) =~= pre + vs.deep_view().take(k + 1));
                        assert(collected.deep_view() =~~= (pre + vs.deep_view().take(
                            k as int,
                        )).push(vs.deep_view()[k as int]));
                    }
                    k = k + 1;
                }
                proof {
                    assert(vs.deep_view().take(vs.len() as int) =~= vs.deep_view());
                    assert(collected.deep_view() =~= explicit_collect(cfg.take(i + 1), request@));
                }
            },
            Err(_) => {
                proof {
                    assert(pre + Seq::<Seq<char>>::empty() =~= pre);
                    assert(collected.deep_view() =~= explicit_collect(cfg.take(i + 1), request@));
                }
            },
        }
        i = i + 1;
    }
    proof {
        assert(cfg.take(config.0@.len() as int) =~= cfg);
    }
    sort_strings(&collected)
}

impl Default for Config {
    /// The default explicit configuration: split the
    /// `x-feature-overrides` attribute at spaces.
    fn default() -> (r: Self)
        ensures
            r.0@.len() == 1,
            strlist_view(r.0@[0]) == (StrListV::Split {
                separator: " "@,
                value: Box::new(crate::expression::StrV::Attribute("x-feature-overrides"@)),
            }),
    {
        let mut v: Vec<StrList> = Vec::new();
        v.push(
            StrList::Split {
                separator: String::from_str(" "),
                value: Str::Attribute(String::from_str("x-feature-overrides")),
            },
        );
        Config(v)
    }
}

} // verus!
