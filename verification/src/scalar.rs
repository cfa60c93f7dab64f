//! Scalars of the prime-order group: integers modulo the group order `l`,
//! held as 32 little-endian bytes whose top bit is zero. A scalar is sampled
//! from 64 bytes of hash output by reduction modulo `l`, and is scaled by the
//! cofactor 8 through a shift of its bytes.

use crate::cofactor::{
    div8_bytes, divide_scalar_bytes_by_cofactor, le_value, lemma_le_value_bound,
    lemma_divide_undoes_multiply, lemma_le_value_injective, lemma_le_value_split_last,
    mul8_bytes, multiply_scalar_bytes_by_cofactor,
};
use vstd::arithmetic::div_mod::{
    lemma_fundamental_div_mod_converse, lemma_mod_mod, lemma_mod_pos_bound, lemma_small_mod,
};
use vstd::arithmetic::power2::{
    lemma2_to64, lemma_pow2_adds, lemma_pow2_pos, lemma_pow2_strictly_increases, pow2,
};
use vstd::prelude::*;

verus! {

/// The order `l` of the prime-order group:
/// `2^252 + 27742317777372353535851937790883648493`.
pub open spec fn group_order() -> nat {
    pow2(252) + 27742317777372353535851937790883648493
}

/// The 32 bytes `x` with the top bit of the last byte cleared: the low 255
/// bits of the integer that `x` encodes.
pub open spec fn low_255_bits(x: Seq<u8>) -> Seq<u8> {
    x.update(31, x[31] & 0b0111_1111)
}

/// An integer modulo the group order, as 32 little-endian bytes.
#[derive(Clone, Copy, Debug)]
pub struct Scalar {
    bytes: [u8; 32],
}

impl View for Scalar {
    type V = Seq<u8>;

    closed spec fn view(&self) -> Seq<u8> {
        self.bytes@
    }
}

impl Scalar {
    /// A scalar is valid when it has 32 bytes and encodes an integer below
    /// `2^255`.
    pub open spec fn wf(&self) -> bool {
        self@.len() == 32 && self@[31] < 128
    }

    /// The integer that the scalar's bytes encode.
    pub open spec fn value(&self) -> nat {
        le_value(self@)
    }

    /// Whether the scalar is reduced: its integer is below the group order.
    pub open spec fn is_canonical(&self) -> bool {
        self.value() < group_order()
    }

    /// The scalar made of the low 255 bits of `bytes`. Nothing is reduced
    /// modulo the group order.
    pub fn from_bits(bytes: [u8; 32]) -> (s: Scalar)
        ensures
            s.wf(),
            s@ == low_255_bits(bytes@),
            s.value() == le_value(bytes@) % pow2(255),
    {
        let masked = dalek_from_bits(bytes);
        proof {
            lemma_low_255_value(bytes@);
        }
        Scalar { bytes: masked }
    }

    /// The scalar's 32 little-endian bytes.
    pub fn to_bytes(&self) -> (r: [u8; 32])
        ensures
            r@ == self@,
    {
        self.bytes
    }
}

/// `curve25519_dalek::scalar::Scalar::from_bits` keeps the 32 bytes it is
/// given and clears the top bit of the last one; `to_bytes` then hands the
/// bytes of that scalar out unchanged.
#[verifier::external_body]
fn dalek_from_bits(bytes: [u8; 32]) -> (r: [u8; 32])
    ensures
        r@ == low_255_bits(bytes@),
{
    curve25519_dalek::scalar::Scalar::from_bits(bytes).to_bytes()
}

/// `curve25519_dalek::scalar::Scalar::from_bytes_mod_order_wide` reads its
/// 64 bytes as a little-endian integer of 512 bits and reduces it modulo
/// the group order; `to_bytes` then hands out the 32 little-endian bytes of
/// the reduced integer.
#[verifier::external_body]
fn dalek_from_bytes_mod_order_wide(input: &[u8; 64]) -> (r: [u8; 32])
    ensures
        le_value(r@) == le_value(input@) % group_order(),
{
    curve25519_dalek::scalar::Scalar::from_bytes_mod_order_wide(input).to_bytes()
}

/// The group order lies between `2^252` and `2^253`.
pub proof fn lemma_group_order_bounds()
    ensures
        pow2(252) < group_order() < pow2(253),
        pow2(253) == 32 * pow2(248),
{
    lemma2_to64();
    lemma_pow2_adds(64, 64);
    lemma_pow2_strictly_increases(128, 252);
    lemma_pow2_adds(1, 252);
    lemma_pow2_adds(5, 248);
}

/// A reduced scalar of 32 bytes has the top three bits of its last byte
/// zero.
pub proof fn lemma_canonical_top_bits(x: Seq<u8>)
    requires
        x.len() == 32,
        le_value(x) < group_order(),
    ensures
        x[31] < 32,
{
    let unit: int = pow2(248) as int;
    let top: int = x[31] as int;
    lemma_group_order_bounds();
    lemma_le_value_split_last(x);
    lemma_pow2_pos(248);
    assert(top < 32) by (nonlinear_arith)
        requires
            top * unit < 32 * unit,
            unit > 0,
    ;
}

/// Clearing the top bit reduces the encoded integer modulo `2^255`.
pub proof fn lemma_low_255_value(x: Seq<u8>)
    requires
        x.len() == 32,
    ensures
        low_255_bits(x)[31] < 128,
        le_value(low_255_bits(x)) == le_value(x) % pow2(255),
{
    let masked = low_255_bits(x);
    let unit: int = pow2(248) as int;
    let top: u8 = x[31];
    let kept: int = masked[31] as int;
    let dropped: int = top as int / 128;
    assert(top & 0b0111_1111 == top % 128) by (bit_vector);
    assert(masked.drop_last() =~= x.drop_last());
    lemma_le_value_split_last(x);
    lemma_le_value_split_last(masked);
    lemma_le_value_bound(x.drop_last());
    lemma2_to64();
    lemma_pow2_adds(7, 248);
    assert(pow2(255) == 128 * unit);
    assert(kept * unit <= 127 * unit) by (nonlinear_arith)
        requires
            0 <= kept <= 127,
            unit >= 0,
    ;
    assert((kept + 128 * dropped) * unit == kept * unit + dropped * (128 * unit))
        by (nonlinear_arith);
    lemma_fundamental_div_mod_converse(
        le_value(x) as int,
        pow2(255) as int,
        dropped,
        le_value(masked) as int,
    );
}

/// Sampling is a function of the hash output: two valid scalars that both
/// hold the reduction of the same 64 bytes are one scalar, and it is below
/// the group order.
pub proof fn lemma_scalar_from_xof_deterministic(output: Seq<u8>, s1: Scalar, s2: Scalar)
    requires
        s1.wf(),
        s2.wf(),
        s1.value() == le_value(output) % group_order(),
        s2.value() == le_value(output) % group_order(),
    ensures
        s1 == s2,
        s1.is_canonical(),
{
    lemma_group_order_bounds();
    lemma_mod_pos_bound(le_value(output) as int, group_order() as int);
    lemma_le_value_injective(s1@, s2@);
    assert(s1.bytes =~= s2.bytes);
}

/// The scalar that 64 bytes of hash output give: the bytes read as a
/// little-endian integer of 512 bits, reduced modulo the group order.
pub fn scalar_from_xof(output: &[u8; 64]) -> (s: Scalar)
    ensures
        s.wf(),
        s.is_canonical(),
        s.value() == le_value(output@) % group_order(),
{
    let reduced = dalek_from_bytes_mod_order_wide(output);
    proof {
        lemma_group_order_bounds();
        lemma_canonical_top_bits(reduced@);
    }
    Scalar { bytes: reduced }
}

/// Scaling a scalar below `2^252` by the cofactor and back gives the same
/// scalar: `m` stands for the product and `d` for its eighth.
pub proof fn lemma_scalar_divide_undoes_multiply(s: Scalar, m: Scalar, d: Scalar)
    requires
        s.wf(),
        s@[31] < 16,
        m@ == low_255_bits(mul8_bytes(s@)),
        d@ == div8_bytes(m@),
    ensures
        d == s,
{
    let top: u8 = s@[31];
    let below: u8 = s@[30];
    assert(top < 16 ==> ((top << 3) | (below >> 5)) & 0b0111_1111 == ((top << 3) | (below >> 5))
        && top & 0b1110_0000 == 0) by (bit_vector);
    assert(low_255_bits(mul8_bytes(s@)) =~= mul8_bytes(s@));
    lemma_divide_undoes_multiply(s@);
    assert(d.bytes =~= s.bytes);
}

/// The scalar divided by 8 as an integer, rounding down. No reduction
/// modulo the group order takes place.
pub fn divide_scalar_by_cofactor(scalar: Scalar) -> (r: Scalar)
    ensures
        r.wf(),
        r@ == div8_bytes(scalar@),
        r.value() == scalar.value() / 8,
        scalar.is_canonical() ==> r.is_canonical(),
{
    let mut x = scalar.to_bytes();
    divide_scalar_bytes_by_cofactor(&mut x);
    proof {
        let top: u8 = scalar@[31];
        assert(((top >> 3) | (0u8 << 5)) & 0b0111_1111 == ((top >> 3) | (0u8 << 5)))
            by (bit_vector);
        assert(low_255_bits(x@) =~= x@);
    }
    Scalar::from_bits(x)
}

/// The scalar times 8 as an integer, modulo `2^255`: the bytes are shifted
/// left by three bits and the top bit of the result is cleared. No
/// reduction modulo the group order takes place.
pub fn multiply_scalar_by_cofactor(scalar: Scalar) -> (r: Scalar)
    ensures
        r.wf(),
        r@ == low_255_bits(mul8_bytes(scalar@)),
        r.value() == (8 * scalar.value()) % pow2(255),
        8 * scalar.value() < pow2(255) ==> r.value() == 8 * scalar.value(),
{
    let mut x = scalar.to_bytes();
    multiply_scalar_bytes_by_cofactor(&mut x);
    proof {
        lemma2_to64();
        lemma_pow2_adds(255, 1);
        lemma_pow2_pos(255);
        assert(pow2(256) == pow2(255) * 2);
        lemma_mod_mod((8 * scalar.value()) as int, pow2(255) as int, 2);
        if 8 * scalar.value() < pow2(255) {
            lemma_small_mod(8 * scalar.value(), pow2(255));
        }
    }
    Scalar::from_bits(x)
}

} // verus!
