//! A per-request feature-targeting engine.
//!
//! Given an immutable request map (attribute names to string values) and an
//! operator-supplied configuration, the engine computes the set of feature
//! flags active for the request and emits them as a deterministic,
//! deduplicated, space-separated token list.

pub mod assemble;
pub mod auth;
pub mod codec;
pub mod decode;
pub mod eval;
pub mod explicit;
pub mod features;
pub mod grammar;
pub mod implicit;
pub mod expression;
pub mod jstring;
pub mod matching;
pub mod num;
pub mod qvalue;
pub mod request;
mod trusted;
pub mod strutil;

use vstd::prelude::*;

verus! {

} // verus!
