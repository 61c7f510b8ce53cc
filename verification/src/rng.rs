use rand::Rng;
use vstd::prelude::*;

verus! {

/// Relies on rand::Rng::gen_range over the inclusive range `lo..=hi` (from
/// rand's thread-local generator): it returns a value from that range and
/// panics only when the range is empty, which the precondition rules out.
/// Nothing more is assumed of the draw: callers must be correct for every
/// value between the bounds.
#[verifier::external_body]
pub(crate) fn rand_in_range(lo: i32, hi: i32) -> (r: i32)
    requires
        lo <= hi,
    ensures
        lo <= r <= hi,
{
    rand::thread_rng().gen_range(lo..=hi)
}

} // verus!
