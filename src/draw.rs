//! Integer and byte draws from a worker's own seedable generator.
use vstd::prelude::*;
use rand::rngs::StdRng;
use rand::{Rng, RngCore};

verus! {

#[verifier::external_type_specification]
#[verifier::external_body]
pub struct ExStdRng(StdRng);

/// Relies on `rand::Rng::gen_range` over `0..bound`: a value in the range,
/// which is not empty here (an empty range panics).
#[verifier::external_body]
pub(crate) fn draw_below(rng: &mut StdRng, bound: usize) -> (r: usize)
    requires
        bound > 0,
    ensures
        r < bound,
{
    rng.gen_range(0..bound)
}

/// Relies on `rand::RngCore::fill_bytes`: fills the whole buffer it is given,
/// here one of `len` bytes.
#[verifier::external_body]
pub(crate) fn draw_bytes(rng: &mut StdRng, len: usize) -> (r: Vec<u8>)
    ensures
        r@.len() == len,
{
    let mut buf = vec![0u8; len];
    rng.fill_bytes(&mut buf);
    buf
}

} // verus!
