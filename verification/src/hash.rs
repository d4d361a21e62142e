//! Hashing to a group, for generators whose mutual discrete logarithms nobody knows.
use crate::curve::{Curve, Point};
use crate::dkg::errors::VssError;
use blake2s_simd::Params;
use vstd::prelude::*;
use vstd::utf8::encode_utf8;

verus! {

/// The digest of `blake2s_simd` for a personalization and a message.
pub uninterp spec fn blake2s_digest(personalization: Seq<u8>, message: Seq<u8>) -> Seq<u8>;

/// The exponent of the point that a personalization and a message hash to.
pub open spec fn group_hash<C: Curve>(personalization: Seq<u8>, message: Seq<u8>) -> int {
    C::seeded(blake2s_digest(personalization, message))
}

/// The exponent of the generator derived from a seed text under a domain separator.
pub open spec fn derived<C: Curve>(tag: Seq<char>, seed: Seq<char>) -> int {
    group_hash::<C>(encode_utf8(tag), encode_utf8(seed))
}

/// `blake2s_simd::Params::personal` and `hash`: the 32-byte BLAKE2s digest of the message under the
/// personalization, which has at most eight bytes.
#[verifier::external_body]
fn blake2s(personalization: &[u8], message: &[u8]) -> (r: [u8; 32])
    requires
        personalization@.len() <= 8,
    ensures
        r@ == blake2s_digest(personalization@, message@),
{
    *Params::new().personal(personalization).hash(message).as_array()
}

/// The point of the group that a message hashes to: its digest seeds the generator from which a
/// point is sampled. The personalization must have exactly eight bytes.
pub fn hash_to_group<C: Curve>(personalization: &[u8], message: &[u8]) -> (r: Result<
    Point<C>,
    VssError,
>)
    ensures
        match r {
            Ok(p) => personalization@.len() == 8 && p@ == group_hash::<C>(
                personalization@,
                message@,
            ),
            Err(e) => personalization@.len() != 8 && e == VssError::Malformed(
                "hash-to-curve failed",
            ),
        },
{
    if personalization.len() != 8 {
        return Err(VssError::Malformed("hash-to-curve failed"));
    }
    let seed = blake2s(personalization, message);
    Ok(Point::from_seed(&seed))
}

} // verus!
