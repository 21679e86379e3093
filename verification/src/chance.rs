//! The random source. Nothing here is proved: each item states what the
//! `rand` crate's generator is taken to do.

use rand::distributions::{Alphanumeric, DistString};
use rand::Rng;
use vstd::prelude::*;

verus! {

/// `rand::rngs::ThreadRng`, the per-thread generator. Its state is opaque to
/// the verifier; it is only carried through to the calls below.
#[verifier::external_type_specification]
#[verifier::external_body]
pub struct ExThreadRng(rand::rngs::ThreadRng);

/// `Rng::gen_range` on `0..bound`. It panics on an empty range, hence the
/// `requires`; on any other it returns the lower bound plus an offset that is
/// smaller than the range's width, so the result lies below `bound`. Which
/// value comes back is left open.
#[verifier::external_body]
pub(crate) fn random_below(rng: &mut rand::rngs::ThreadRng, bound: usize) -> (pick: usize)
    requires
        bound > 0,
    ensures
        pick < bound,
{
    rng.gen_range(0..bound)
}

/// `Rng::gen` for a `u32`: the generator's next 32 bits. Any value can come
/// back, so nothing is claimed of it.
#[verifier::external_body]
pub(crate) fn random_id(rng: &mut rand::rngs::ThreadRng) -> (id: u32) {
    rng.gen()
}

/// The characters that `Alphanumeric` samples from: the ASCII letters and
/// digits.
pub open spec fn is_ascii_alphanumeric(c: char) -> bool {
    ('A' <= c && c <= 'Z') || ('a' <= c && c <= 'z') || ('0' <= c && c <= '9')
}

/// `DistString::sample_string` of `Alphanumeric`: a string of `len`
/// characters, each drawn from the ASCII letters and digits. Which ones is
/// left open.
#[verifier::external_body]
pub(crate) fn random_alphanumeric(rng: &mut rand::rngs::ThreadRng, len: usize) -> (text: String)
    ensures
        text@.len() == len,
        forall|i: int| 0 <= i < text@.len() ==> is_ascii_alphanumeric(#[trigger] text@[i]),
{
    Alphanumeric.sample_string(rng, len)
}

} // verus!
