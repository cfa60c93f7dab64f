//! The bridge between a point of the curve, whose group has order `8 * l`,
//! and a point of the quotient group of prime order `l`.
//!
//! A quotient point is held as one representative point of the curve and
//! nothing else. Going from a quotient point to the curve hands that
//! representative out. Going the other way is allowed only for a point with
//! no component in the torsion subgroup of order 8.

use crate::errors::SignatureError;
use vstd::prelude::*;

verus! {

/// `curve25519_dalek::edwards::EdwardsPoint`, a point of the curve. Nothing
/// of its coordinates is visible here.
#[verifier::external_type_specification]
#[verifier::external_body]
pub struct ExEdwardsPoint(curve25519_dalek::edwards::EdwardsPoint);

/// Whether `EdwardsPoint::is_torsion_free` holds of a point: whether the
/// point lies in the subgroup of prime order `l`.
pub uninterp spec fn torsion_free(p: curve25519_dalek::edwards::EdwardsPoint) -> bool;

/// `EdwardsPoint::is_torsion_free` multiplies the point by the group order
/// `l` and tests the product for the identity. It reads the point only, so
/// its answer is a property of the point, which `torsion_free` names.
pub assume_specification[ curve25519_dalek::edwards::EdwardsPoint::is_torsion_free ](
    p: &curve25519_dalek::edwards::EdwardsPoint,
) -> (r: bool)
    ensures
        r == torsion_free(*p),
;

/// A point of the prime-order quotient group, held as its representative on
/// the curve.
#[derive(Clone, Copy, Debug)]
pub struct QuotientPoint {
    representative: curve25519_dalek::edwards::EdwardsPoint,
}

impl QuotientPoint {
    /// The point of the curve that stands for this quotient point.
    pub closed spec fn representative(self) -> curve25519_dalek::edwards::EdwardsPoint {
        self.representative
    }

    /// The quotient point that `p` stands for.
    pub closed spec fn of(p: curve25519_dalek::edwards::EdwardsPoint) -> QuotientPoint {
        QuotientPoint { representative: p }
    }

    /// A quotient point is valid when its representative is torsion-free.
    pub open spec fn wf(self) -> bool {
        torsion_free(self.representative())
    }
}

/// The bridge's decision for `p` once the torsion test has been made: a
/// point that passed becomes a quotient point, one that did not is refused.
pub open spec fn bridge_decision(
    p: curve25519_dalek::edwards::EdwardsPoint,
    passed: bool,
) -> Result<QuotientPoint, SignatureError> {
    if passed {
        Ok(QuotientPoint::of(p))
    } else {
        Err(SignatureError::PointDecompressionError)
    }
}

/// What `edwards_to_ristretto` returns for `p`.
pub open spec fn edwards_to_ristretto_spec(
    p: curve25519_dalek::edwards::EdwardsPoint,
) -> Result<QuotientPoint, SignatureError> {
    bridge_decision(p, torsion_free(p))
}

/// A quotient point is its representative and nothing more.
pub proof fn lemma_quotient_is_representative(
    q: QuotientPoint,
    p: curve25519_dalek::edwards::EdwardsPoint,
)
    ensures
        QuotientPoint::of(p).representative() == p,
        QuotientPoint::of(q.representative()) == q,
{
}

/// Going from a valid quotient point to the curve and back succeeds and
/// gives the same quotient point.
pub proof fn lemma_bridge_round_trip(q: QuotientPoint)
    requires
        q.wf(),
    ensures
        edwards_to_ristretto_spec(q.representative()) == Ok::<QuotientPoint, SignatureError>(q),
{
}

/// The point of the curve that stands for `p`. Nothing is computed.
pub fn ristretto_to_edwards(p: QuotientPoint) -> (r: curve25519_dalek::edwards::EdwardsPoint)
    ensures
        r == p.representative(),
{
    p.representative
}

/// The bridge's decision for `p`, given in `passed` whether `p` passed the
/// torsion test: the quotient point that `p` stands for, or the refusal.
pub fn quotient_from_torsion_check(
    p: curve25519_dalek::edwards::EdwardsPoint,
    passed: bool,
) -> (r: Result<QuotientPoint, SignatureError>)
    ensures
        r == bridge_decision(p, passed),
{
    if !passed {
        return Err(SignatureError::PointDecompressionError);
    }
    Ok(QuotientPoint { representative: p })
}

/// The quotient point that `p` stands for, if `p` is torsion-free. The test
/// is a multiplication by the group order, which is slow.
pub fn edwards_to_ristretto(
    p: curve25519_dalek::edwards::EdwardsPoint,
) -> (r: Result<QuotientPoint, SignatureError>)
    ensures
        r == edwards_to_ristretto_spec(p),
        r is Ok <==> torsion_free(p),
        r is Ok ==> r->Ok_0.wf() && r->Ok_0.representative() == p,
        r is Err ==> r->Err_0 == SignatureError::PointDecompressionError,
{
    let passed = p.is_torsion_free();
    quotient_from_torsion_check(p, passed)
}

} // verus!
