//! The functions of other crates that this one calls.
use num_bigint::BigInt;
use num_traits::Zero;
use vstd::prelude::*;

verus! {

/// Whether every byte is zero.
pub open spec fn is_zero_bytes(bytes: Seq<u8>) -> bool {
    forall|i: int| 0 <= i < bytes.len() ==> #[trigger] bytes[i] == 0
}

/// Calls `num_traits::Zero::is_zero` on the `num_bigint::BigInt` whose two's complement the bytes
/// are, least significant first. The number is zero exactly when every byte is; no bytes stand for
/// zero too.
#[verifier::external_body]
pub(crate) fn is_zero(bytes: &Vec<u8>) -> (r: bool)
    ensures
        r == is_zero_bytes(bytes@),
{
    BigInt::from_signed_bytes_le(bytes).is_zero()
}

/// Calls `itertools::zip_eq` and collects what it iterates over: the pairs of the elements at the
/// same places. It panics when one of the two is longer, which is left out.
#[verifier::external_body]
pub(crate) fn zip_eq<A, B>(a: Vec<A>, b: Vec<B>) -> (r: Vec<(A, B)>)
    requires
        a@.len() == b@.len(),
    ensures
        r@ == Seq::new(a@.len(), |i: int| (a@[i], b@[i])),
{
    itertools::zip_eq(a, b).collect()
}

} // verus!
