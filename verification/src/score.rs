//! The scoring metric: how a solution is measured and when one score beats
//! another. Everything else in the crate goes through these two functions, so
//! a different metric is a change to this file alone.

use vstd::prelude::*;
use vstd::string::StringSliceAdditionalSpecFns;

verus! {

/// The score of `code`: the number of bytes of its UTF-8 encoding.
pub open spec fn spec_score(code: Seq<char>) -> nat {
    vstd::utf8::encode_utf8(code).len()
}

/// Whether score `a` beats score `b`: the lower score wins.
pub open spec fn spec_is_better(a: int, b: int) -> bool {
    a < b
}

/// Scores a solution by its length in bytes.
pub fn score(code: &str) -> (s: u64)
    ensures
        s == spec_score(code@),
{
    let bytes = code.as_bytes();
    bytes.len() as u64
}

/// Whether score `a` beats score `b`.
pub fn is_better(a: u64, b: u64) -> (better: bool)
    ensures
        better == spec_is_better(a as int, b as int),
{
    a < b
}

/// No score beats itself, and of two different scores exactly one beats the
/// other.
pub proof fn lemma_is_better_strict_total(a: int, b: int)
    ensures
        !spec_is_better(a, a),
        a != b ==> (spec_is_better(a, b) <==> !spec_is_better(b, a)),
{
}

} // verus!
